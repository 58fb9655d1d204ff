//! The meaning of evaluation, stated over mathematical values.
//!
//! The state is a flat sequence of bindings, split into frames by their start
//! positions: the root frame first, the innermost frame last. Looking a name
//! up finds its last binding, which lies in the nearest frame that defines it.
//! Evaluation is bounded by a fuel count: a nested list evaluation spends one
//! unit, and a `while` loop runs at most as many rounds as the fuel it got.
//! Floating-point results come from the host: each request takes the next
//! answer of an oracle, and the evaluator's contracts hold for every oracle
//! that agrees with the answers the host actually gave.
use vstd::prelude::*;
use crate::errors::{msg_core_arity, msg_not_a_list, msg_empty_list, msg_undefined,msg_already_defined,msg_not_defined,msg_requires_two,msg_operator_not_implemented,msg_form_not_implemented,msg_core_not_implemented,msg_define_extra,msg_cannot_redefine,msg_invalid_function_name,msg_not_a_function,msg_too_many,msg_not_a_number,msg_not_a_boolean,msg_division_by_zero,msg_overflow,msg_limit,msg_empty_application,msg_unsupported_head,msg_while_arity,msg_empty_begin,msg_if_arity,msg_set_arity,msg_set_extra,msg_set_target,msg_define_null,msg_bad_parameter,msg_bad_parameter_list,msg_arity_mismatch};
use crate::primitives::{cell_printed, CellV, CoreFunc, LogicalOperator, NumericOperator, SpecialForm};
use crate::symbolic_expression::{items_printed, printed, SexpV};

verus! {

/// Upper bound on the number of live bindings.
pub const MAX_BINDINGS: usize = 0x7FFF_FFFE;

pub struct Store {
    /// Every live binding, name and value, innermost last.
    pub binds: Seq<(Seq<char>, SexpV)>,
    /// Position in `binds` where each frame begins, root first.
    pub starts: Seq<int>,
    /// Lines written by `output`, oldest first.
    pub out: Seq<Seq<char>>,
    /// How many answers the host has given so far.
    pub asked: nat,
}

/// The state after an evaluation, and its value or error.
pub enum Outcome<T> {
    Done(Store, Result<T, Seq<char>>),
}

/// What the host's floating-point arithmetic answered to one request.
pub enum HostAnswer {
    Number(u64, Seq<char>),
    Truth(bool),
    Nothing,
}

/// The host's answers, in the order they were requested.
pub type HostOracle = spec_fn(nat) -> HostAnswer;

/// `orc` gives the answers recorded in `log`, in order.
pub open spec fn follows(orc: HostOracle, log: Seq<HostAnswer>) -> bool {
    forall|i: int| 0 <= i < log.len() ==> orc(i as nat) == #[trigger] log[i]
}

/// `long` starts with `short`.
pub open spec fn extends_log(long: Seq<HostAnswer>, short: Seq<HostAnswer>) -> bool {
    short.len() <= long.len() && forall|i: int| 0 <= i < short.len() ==> long[i] == #[trigger] short[i]
}

/// An oracle that gives the answers of a log gives those of its prefixes.
pub broadcast proof fn lemma_follows_prefix(orc: HostOracle, long: Seq<HostAnswer>, short: Seq<HostAnswer>)
    ensures
        #![trigger follows(orc, long), extends_log(long, short)]
        follows(orc, long) && extends_log(long, short) ==> follows(orc, short),
{
    if follows(orc, long) && extends_log(long, short) {
        assert forall|i: int| 0 <= i < short.len() implies orc(i as nat) == #[trigger] short[i] by {
            assert(long[i] == short[i]);
        }
    }
}

/// `orc` gives the answers recorded in `log`, by token position.
pub open spec fn follows_map(orc: HostOracle, log: Map<nat, HostAnswer>) -> bool {
    forall|i: nat| #[trigger] log.contains_key(i) ==> orc(i) == log[i]
}

pub broadcast proof fn lemma_follows_submap(orc: HostOracle, small: Map<nat, HostAnswer>, big: Map<nat, HostAnswer>)
    ensures
        #![trigger follows_map(orc, big), small.submap_of(big)]
        follows_map(orc, big) && small.submap_of(big) ==> follows_map(orc, small),
{
    if follows_map(orc, big) && small.submap_of(big) {
        assert forall|i: nat| #[trigger] small.contains_key(i) implies orc(i) == small[i] by {
            assert(big.contains_key(i));
        }
    }
}

pub broadcast proof fn lemma_submap_trans(a: Map<nat, HostAnswer>, b: Map<nat, HostAnswer>, c: Map<nat, HostAnswer>)
    ensures
        #![trigger a.submap_of(b), b.submap_of(c)]
        a.submap_of(b) && b.submap_of(c) ==> a.submap_of(c),
{
    if a.submap_of(b) && b.submap_of(c) {
        assert forall|k: nat| #[trigger] a.dom().contains(k) implies c.dom().contains(k) && a[k] == c[k] by {
            assert(b.dom().contains(k));
        }
    }
}

/// A log extends itself, and extending is transitive.
pub broadcast proof fn lemma_extends_trans(a: Seq<HostAnswer>, b: Seq<HostAnswer>, c: Seq<HostAnswer>)
    ensures
        #![trigger extends_log(a, b), extends_log(b, c)]
        extends_log(a, b) && extends_log(b, c) ==> extends_log(a, c),
{
}

/// The float an answer gives (a number answer stands for itself).
pub open spec fn host_number(h: HostAnswer) -> CellV {
    match h {
        HostAnswer::Number(bits, text) => CellV::Flt(bits, text),
        _ => CellV::Flt(0, Seq::empty()),
    }
}

pub open spec fn host_truth(h: HostAnswer) -> bool {
    match h {
        HostAnswer::Truth(b) => b,
        _ => false,
    }
}

impl Store {
    pub open spec fn frame_end(self, k: int) -> int {
        if k + 1 < self.starts.len() {
            self.starts[k + 1]
        } else {
            self.binds.len() as int
        }
    }

    pub open spec fn top_start(self) -> int {
        self.starts.last()
    }

    /// Frames are contiguous and ordered, and no name occurs twice in a frame.
    pub open spec fn wf(self) -> bool {
        &&& self.starts.len() >= 1
        &&& self.starts[0] == 0
        &&& self.binds.len() <= MAX_BINDINGS
        &&& forall|k: int|
            0 <= k < self.starts.len() ==> 0 <= #[trigger] self.starts[k] <= self.frame_end(k)
                && self.starts[k] <= self.binds.len()
        &&& forall|k1: int, k2: int|
            0 <= k1 <= k2 < self.starts.len() ==> #[trigger] self.starts[k1] <= #[trigger] self.starts[k2]
        &&& forall|k: int, i: int, j: int|
            #![trigger self.starts[k], self.binds[i], self.binds[j]]
            0 <= k < self.starts.len() && self.starts[k] <= i < j < self.frame_end(k)
                ==> self.binds[i].0 != self.binds[j].0
    }

    pub open spec fn push_frame(self) -> Store {
        Store { starts: self.starts.push(self.binds.len() as int), ..self }
    }

    pub open spec fn pop_frame(self) -> Store {
        Store {
            binds: self.binds.subrange(0, self.top_start()),
            starts: self.starts.drop_last(),
            ..self
        }
    }

    /// The state after one more host answer.
    pub open spec fn ask(self) -> Store {
        Store { asked: self.asked + 1, ..self }
    }

    pub open spec fn write(self, line: Seq<char>) -> Store {
        Store { out: self.out.push(line), ..self }
    }
}

/// `s2` is `s1` with bindings appended to its innermost frame.
pub open spec fn extends(s2: Store, s1: Store) -> bool {
    &&& s2.starts == s1.starts
    &&& s2.out == s1.out
    &&& s1.binds.len() <= s2.binds.len()
    &&& s2.binds.subrange(0, s1.binds.len() as int) == s1.binds
}

/// The names bound at each position, in order.
pub open spec fn names(binds: Seq<(Seq<char>, SexpV)>) -> Seq<Seq<char>> {
    binds.map_values(|b: (Seq<char>, SexpV)| b.0)
}

/// If no position in `[lo, hi)` holds `name`, none of them does; and a
/// position found holds it, with no later one in range.
pub proof fn lemma_last_index(binds: Seq<(Seq<char>, SexpV)>, name: Seq<char>, lo: int, hi: int)
    ensures
        last_index(binds, name, lo, hi) is None ==> forall|i: int|
            lo <= i < hi ==> #[trigger] binds[i].0 != name,
        last_index(binds, name, lo, hi) matches Some(i) ==> lo <= i < hi && binds[i].0 == name
            && forall|j: int| i < j < hi ==> #[trigger] binds[j].0 != name,
    decreases hi - lo,
{
    if hi > lo {
        lemma_last_index(binds, name, lo, hi - 1);
    }
}

pub proof fn lemma_push_frame_wf(st: Store)
    requires
        st.wf(),
    ensures
        st.push_frame().wf(),
{
    let s2 = st.push_frame();
    assert forall|k: int| 0 <= k < s2.starts.len() - 1 implies s2.frame_end(k) == st.frame_end(k) by {}
    assert forall|k: int, i: int, j: int|
        #![trigger s2.starts[k], s2.binds[i], s2.binds[j]]
        0 <= k < s2.starts.len() && s2.starts[k] <= i < j < s2.frame_end(k)
        implies s2.binds[i].0 != s2.binds[j].0 by {
        assert(st.starts[k] == s2.starts[k] || k == s2.starts.len() - 1);
    }
}

#[verifier::rlimit(40)]
pub proof fn lemma_pop_frame_wf(st: Store)
    requires
        st.wf(),
        st.starts.len() > 1,
    ensures
        st.pop_frame().wf(),
{
    let s2 = st.pop_frame();
    let top = st.top_start();
    assert(st.starts[st.starts.len() - 1] == top);
    assert forall|k: int| 0 <= k < s2.starts.len() implies s2.frame_end(k) == st.frame_end(k)
        && #[trigger] s2.starts[k] == st.starts[k] && st.frame_end(k) <= top by {
        if k + 1 < s2.starts.len() {
            assert(st.starts[k + 1] <= st.starts[st.starts.len() - 1]);
        }
    }
    assert forall|k: int, i: int, j: int|
        #![trigger s2.starts[k], s2.binds[i], s2.binds[j]]
        0 <= k < s2.starts.len() && s2.starts[k] <= i < j < s2.frame_end(k)
        implies s2.binds[i].0 != s2.binds[j].0 by {
        assert(s2.frame_end(k) == st.frame_end(k));
        assert(st.binds[i] == s2.binds[i] && st.binds[j] == s2.binds[j]);
        assert(st.starts[k] <= i < j < st.frame_end(k));
    }
}

pub proof fn lemma_define_wf(st: Store, name: Seq<char>, v: SexpV)
    requires
        st.wf(),
        define(st, name, v) is Ok,
    ensures
        define(st, name, v)->Ok_0.wf(),
        define(st, name, v)->Ok_0.binds == st.binds.push((name, v)),
        define(st, name, v)->Ok_0.starts == st.starts,
        define(st, name, v)->Ok_0.out == st.out,
{
    let n = st.binds.len() as int;
    let s2 = define(st, name, v)->Ok_0;
    lemma_last_index(st.binds, name, st.top_start(), n);
    assert forall|k: int| 0 <= k < s2.starts.len() - 1 implies s2.frame_end(k) == st.frame_end(k) by {}
    assert forall|k: int, i: int, j: int|
        #![trigger s2.starts[k], s2.binds[i], s2.binds[j]]
        0 <= k < s2.starts.len() && s2.starts[k] <= i < j < s2.frame_end(k)
        implies s2.binds[i].0 != s2.binds[j].0 by {
        if j == n {
            if k < s2.starts.len() - 1 {
                assert(st.starts[k + 1] <= n);
            }
            assert(k == s2.starts.len() - 1);
            assert(st.binds[i].0 != name);
        } else {
            assert(st.binds[i] == s2.binds[i] && st.binds[j] == s2.binds[j]);
            assert(st.starts[k] <= i < j < st.frame_end(k));
        }
    }
}

pub proof fn lemma_assign_wf(st: Store, name: Seq<char>, v: SexpV)
    requires
        st.wf(),
        assign(st, name, v) is Ok,
    ensures
        assign(st, name, v)->Ok_0.0.wf(),
{
    let s2 = assign(st, name, v)->Ok_0.0;
    lemma_last_index(st.binds, name, 0, st.binds.len() as int);
    let i0 = last_index(st.binds, name, 0, st.binds.len() as int)->Some_0;
    assert forall|k: int| 0 <= k < s2.starts.len() implies s2.frame_end(k) == st.frame_end(k) by {}
    assert forall|k: int, i: int, j: int|
        #![trigger s2.starts[k], s2.binds[i], s2.binds[j]]
        0 <= k < s2.starts.len() && s2.starts[k] <= i < j < s2.frame_end(k)
        implies s2.binds[i].0 != s2.binds[j].0 by {
        assert(s2.binds[i].0 == st.binds[i].0);
        assert(s2.binds[j].0 == st.binds[j].0);
        assert(st.starts[k] <= i < j < st.frame_end(k));
    }
}

/// The root state: one empty frame, nothing written.
pub open spec fn empty_store() -> Store {
    Store { binds: Seq::empty(), starts: seq![0], out: Seq::empty(), asked: 0 }
}

/// The last position in `[lo, hi)` whose binding has `name`.
pub open spec fn last_index(binds: Seq<(Seq<char>, SexpV)>, name: Seq<char>, lo: int, hi: int) -> Option<int>
    decreases hi - lo,
{
    if hi <= lo {
        None
    } else if binds[hi - 1].0 == name {
        Some(hi - 1)
    } else {
        last_index(binds, name, lo, hi - 1)
    }
}

/// The value of `name` in the nearest frame that defines it.
pub open spec fn lookup(st: Store, name: Seq<char>) -> Option<SexpV> {
    match last_index(st.binds, name, 0, st.binds.len() as int) {
        Some(i) => Some(st.binds[i].1),
        None => None,
    }
}

/// The start of the innermost of the first `n` frames that begins at or before `i`.
pub open spec fn start_below(starts: Seq<int>, i: int, n: int) -> int
    decreases n,
{
    if n <= 0 {
        0
    } else if starts[n - 1] <= i {
        starts[n - 1]
    } else {
        start_below(starts, i, n - 1)
    }
}

/// Binding `name` to `v` in the innermost frame.
pub open spec fn define(st: Store, name: Seq<char>, v: SexpV) -> Result<Store, Seq<char>> {
    if last_index(st.binds, name, st.top_start(), st.binds.len() as int) is Some {
        Err(msg_already_defined(name))
    } else if st.binds.len() >= MAX_BINDINGS {
        Err(msg_too_many())
    } else {
        Ok(Store { binds: st.binds.push((name, v)), ..st })
    }
}

/// Overwriting `name` where it is bound in the nearest frame; also gives the
/// binding's position within that frame.
pub open spec fn assign(st: Store, name: Seq<char>, v: SexpV) -> Result<(Store, int), Seq<char>> {
    match last_index(st.binds, name, 0, st.binds.len() as int) {
        None => Err(msg_not_defined(name)),
        Some(i) => Ok(
            (
                Store { binds: st.binds.update(i, (name, v)), ..st },
                i - start_below(st.starts, i, st.starts.len() as int),
            ),
        ),
    }
}

pub open spec fn tail(xs: Seq<SexpV>) -> Seq<SexpV> {
    xs.subrange(1, xs.len() as int)
}

pub open spec fn as_number(v: SexpV) -> Result<CellV, Seq<char>> {
    match v {
        SexpV::Cell(c) => if c.is_number() {
            Ok(c)
        } else {
            Err(msg_not_a_number())
        },
        _ => Err(msg_not_a_number()),
    }
}

/// Truthiness: a boolean is itself, a number is true when above zero.
pub open spec fn truth(v: SexpV) -> Result<bool, Seq<char>> {
    match v {
        SexpV::Cell(CellV::Bool(b)) => Ok(b),
        SexpV::Cell(CellV::Int(i)) => Ok(i > 0),
        SexpV::Cell(CellV::Flt(bits, _)) => Ok(0 < bits <= 0x7FF0_0000_0000_0000u64),
        _ => Err(msg_not_a_boolean()),
    }
}

pub open spec fn in_i64(i: int) -> bool {
    i64::MIN <= i <= i64::MAX
}

/// Integer division rounding toward zero.
pub open spec fn trunc_div(a: int, b: int) -> int {
    let q = (if a >= 0 { a } else { -a }) / (if b >= 0 { b } else { -b });
    if (a >= 0) == (b >= 0) {
        q
    } else {
        -q
    }
}

/// One integer arithmetic step, within 64 bits.
pub open spec fn int_step(op: NumericOperator, a: int, b: int) -> Result<int, Seq<char>> {
    let r = match op {
        NumericOperator::Add => a + b,
        NumericOperator::Subtract => a - b,
        NumericOperator::Multiply => a * b,
        _ => trunc_div(a, b),
    };
    if op is Divide && b == 0 {
        Err(msg_division_by_zero())
    } else if !in_i64(r) {
        Err(msg_overflow())
    } else {
        Ok(r)
    }
}

/// One arithmetic step on numbers; `None` when a float takes part.
pub open spec fn num_step(op: NumericOperator, a: CellV, b: CellV) -> Option<Result<CellV, Seq<char>>> {
    match (a, b) {
        (CellV::Int(x), CellV::Int(y)) => Some(
            match int_step(op, x, y) {
                Ok(r) => Ok(CellV::Int(r)),
                Err(m) => Err(m),
            },
        ),
        _ => None,
    }
}

/// One arithmetic step, the host answering when a float takes part.
pub open spec fn step_with(st: Store, orc: HostOracle, op: NumericOperator, a: CellV, b: CellV) -> (Store, Result<CellV, Seq<char>>) {
    match num_step(op, a, b) {
        Some(r) => (st, r),
        None => (st.ask(), Ok(host_number(orc(st.asked)))),
    }
}

/// One comparison, the host answering when a float takes part.
pub open spec fn compare_with(st: Store, orc: HostOracle, op: LogicalOperator, a: CellV, b: CellV) -> (Store, bool) {
    match num_compare(op, a, b) {
        Some(t) => (st, t),
        None => (st.ask(), host_truth(orc(st.asked))),
    }
}

/// One comparison; `None` when a float takes part.
pub open spec fn num_compare(op: LogicalOperator, a: CellV, b: CellV) -> Option<bool> {
    match (a, b) {
        (CellV::Int(x), CellV::Int(y)) => Some(
            match op {
                LogicalOperator::Less => x < y,
                LogicalOperator::Greater => x > y,
                LogicalOperator::Equal => x == y,
                LogicalOperator::LessEqual => x <= y,
                _ => x >= y,
            },
        ),
        _ => None,
    }
}

pub open spec fn is_comparison(op: LogicalOperator) -> bool {
    op is Less || op is Greater || op is Equal || op is LessEqual || op is GreaterEqual
}

/// The built-in procedures that are provided; the others are rejected.
pub open spec fn core_implemented(func: CoreFunc) -> bool {
    func is List || func is Cons || func is Car || func is First || func is Cdr || func is Rest
        || func is Append || func is IsNull || func is IsNumber || func is IsList || func is IsBoolean
        || func is IsString || func is IsExact
}

/// The elements of the lists `vals`, in order; `None` if one is not a list.
pub open spec fn append_all(vals: Seq<SexpV>) -> Option<Seq<SexpV>>
    decreases vals.len(),
{
    if vals.len() == 0 {
        Some(Seq::empty())
    } else {
        match (vals[0], append_all(tail(vals))) {
            (SexpV::List(xs), Some(rest)) => Some(xs + rest),
            _ => None,
        }
    }
}

/// The head of the list `v`.
pub open spec fn car_of(name: Seq<char>, v: SexpV) -> Result<SexpV, Seq<char>> {
    match v {
        SexpV::List(xs) => if xs.len() > 0 {
            Ok(xs[0])
        } else {
            Err(msg_empty_list(name))
        },
        _ => Err(msg_not_a_list(name)),
    }
}

/// The list `v` without its head.
pub open spec fn cdr_of(name: Seq<char>, v: SexpV) -> Result<SexpV, Seq<char>> {
    match v {
        SexpV::List(xs) => if xs.len() > 0 {
            Ok(SexpV::List(tail(xs)))
        } else {
            Err(msg_empty_list(name))
        },
        _ => Err(msg_not_a_list(name)),
    }
}

/// A built-in procedure applied to the values of its arguments.
pub open spec fn core_apply(func: CoreFunc, vals: Seq<SexpV>) -> Result<SexpV, Seq<char>> {
    let name = func.lexeme();
    if func is List {
        Ok(SexpV::List(vals))
    } else if func is Append {
        match append_all(vals) {
            Some(xs) => Ok(SexpV::List(xs)),
            None => Err(msg_not_a_list(name)),
        }
    } else if func is Cons {
        if vals.len() != 2 {
            Err(msg_core_arity(name))
        } else {
            match vals[1] {
                SexpV::List(xs) => Ok(SexpV::List(seq![vals[0]] + xs)),
                other => Ok(SexpV::List(seq![vals[0], other])),
            }
        }
    } else if vals.len() != 1 {
        Err(msg_core_arity(name))
    } else {
        let v = vals[0];
        match func {
            CoreFunc::Car => car_of(name, v),
            CoreFunc::First => car_of(name, v),
            CoreFunc::Cdr => cdr_of(name, v),
            CoreFunc::Rest => cdr_of(name, v),
            CoreFunc::IsNull => Ok(SexpV::Cell(CellV::Bool(v is Null || v == SexpV::List(Seq::empty())))),
            CoreFunc::IsNumber => Ok(SexpV::Cell(CellV::Bool(v matches SexpV::Cell(c) && c.is_number()))),
            CoreFunc::IsList => Ok(SexpV::Cell(CellV::Bool(v is List))),
            CoreFunc::IsBoolean => Ok(SexpV::Cell(CellV::Bool(v matches SexpV::Cell(CellV::Bool(_))))),
            CoreFunc::IsString => Ok(SexpV::Cell(CellV::Bool(v matches SexpV::Cell(CellV::Str(_))))),
            CoreFunc::IsExact => match as_number(v) {
                Ok(c) => Ok(SexpV::Cell(CellV::Bool(c is Int))),
                Err(m) => Err(m),
            },
            _ => Err(msg_core_not_implemented(name)),
        }
    }
}

/// Evaluating `e` with `fuel`.
pub open spec fn eval(st: Store, e: SexpV, fuel: nat, orc: HostOracle) -> Outcome<SexpV>
    decreases fuel, 3int, 0int,
{
    match e {
        SexpV::Null => Outcome::Done(st, Ok(SexpV::Null)),
        SexpV::Cell(CellV::Symbol(_, name)) => match lookup(st, name) {
            Some(v) => Outcome::Done(st, Ok(v)),
            None => Outcome::Done(st, Err(msg_undefined(name))),
        },
        SexpV::Cell(_) => Outcome::Done(st, Ok(e)),
        SexpV::List(xs) => if fuel == 0 {
            Outcome::Done(st, Err(msg_limit()))
        } else {
            eval_list(st, xs, (fuel - 1) as nat, orc)
        },
    }
}

/// Evaluating the list `xs` as an application; operands get fuel `f`.
pub open spec fn eval_list(st: Store, xs: Seq<SexpV>, f: nat, orc: HostOracle) -> Outcome<SexpV>
    decreases f + 1, 2int, 0int,
{
    if xs.len() == 0 {
        Outcome::Done(st, Err(msg_empty_application()))
    } else {
        let args = tail(xs);
        match xs[0] {
            SexpV::Cell(CellV::Special(form)) => eval_special(st, form, args, f, orc),
            SexpV::Cell(CellV::Core(func)) => if !core_implemented(func) {
                Outcome::Done(st, Err(msg_core_not_implemented(func.lexeme())))
            } else {
                match eval_each(st, args, f, orc) {
                            Outcome::Done(s1, Err(m)) => Outcome::Done(s1, Err(m)),
                    Outcome::Done(s1, Ok(vals)) => Outcome::Done(s1, core_apply(func, vals)),
                }
            },
            SexpV::Cell(CellV::Symbol(_, name)) => apply_function(st, name, args, f, orc),
            SexpV::Cell(CellV::Op(op)) => apply_operator(st, op, args, f, orc),
            SexpV::Cell(CellV::Logical(op)) => apply_logical(st, op, args, f, orc),
            SexpV::List(_) => eval(st, xs[0], f, orc),
            SexpV::Null => Outcome::Done(st, Ok(SexpV::Null)),
            SexpV::Cell(_) => Outcome::Done(st, Err(msg_unsupported_head())),
        }
    }
}

/// Evaluating each of `xs` in order, collecting the values.
pub open spec fn eval_each(st: Store, xs: Seq<SexpV>, f: nat, orc: HostOracle) -> Outcome<Seq<SexpV>>
    decreases f + 1, 0int, xs.len(),
{
    if xs.len() == 0 {
        Outcome::Done(st, Ok(Seq::empty()))
    } else {
        match eval(st, xs[0], f, orc) {
            Outcome::Done(s1, Err(m)) => Outcome::Done(s1, Err(m)),
            Outcome::Done(s1, Ok(v)) => match eval_each(s1, tail(xs), f, orc) {
                    Outcome::Done(s2, Err(m)) => Outcome::Done(s2, Err(m)),
                Outcome::Done(s2, Ok(vs)) => Outcome::Done(s2, Ok(seq![v] + vs)),
            },
        }
    }
}

pub open spec fn eval_special(st: Store, form: SpecialForm, args: Seq<SexpV>, f: nat, orc: HostOracle) -> Outcome<SexpV>
    decreases f + 1, 1int, 0int,
{
    match form {
        SpecialForm::If => eval_if(st, args, f, orc),
        SpecialForm::SetBang => eval_set(st, args, f, orc),
        SpecialForm::While => if args.len() != 2 {
            Outcome::Done(st, Err(msg_while_arity()))
        } else {
            eval_while(st, args[0], args[1], SexpV::Cell(CellV::Bool(false)), f, f, orc)
        },
        SpecialForm::Begin => if args.len() == 0 {
            Outcome::Done(st, Err(msg_empty_begin()))
        } else {
            match eval_each(st, args, f, orc) {
                    Outcome::Done(s1, Err(m)) => Outcome::Done(s1, Err(m)),
                Outcome::Done(s1, Ok(vs)) => Outcome::Done(s1, Ok(vs.last())),
            }
        },
        SpecialForm::Output => match eval_each(st, args, f, orc) {
            Outcome::Done(s1, Err(m)) => Outcome::Done(s1, Err(m)),
            Outcome::Done(s1, Ok(vs)) => Outcome::Done(
                s1.write(items_printed(vs)),
                Ok(SexpV::Cell(CellV::Str(items_printed(vs)))),
            ),
        },
        SpecialForm::Define => eval_define(st, args, f, orc),
        _ => Outcome::Done(st, Err(msg_form_not_implemented(form.lexeme()))),
    }
}

/// `(if test then else)`.
pub open spec fn eval_if(st: Store, args: Seq<SexpV>, f: nat, orc: HostOracle) -> Outcome<SexpV>
    decreases f + 1, 0int, 0int,
{
    if args.len() != 3 {
        Outcome::Done(st, Err(msg_if_arity()))
    } else {
        match eval(st, args[0], f, orc) {
            Outcome::Done(s1, Err(m)) => Outcome::Done(s1, Err(m)),
            Outcome::Done(s1, Ok(v)) => match truth(v) {
                Err(m) => Outcome::Done(s1, Err(m)),
                Ok(b) => eval(s1, if b { args[1] } else { args[2] }, f, orc),
            },
        }
    }
}

/// `(set! name expr)`: the value is evaluated first.
pub open spec fn eval_set(st: Store, args: Seq<SexpV>, f: nat, orc: HostOracle) -> Outcome<SexpV>
    decreases f + 1, 0int, 0int,
{
    if args.len() < 2 {
        Outcome::Done(st, Err(msg_set_arity()))
    } else if args.len() > 2 {
        Outcome::Done(st, Err(msg_set_extra()))
    } else {
        match eval(st, args[1], f, orc) {
            Outcome::Done(s1, Err(m)) => Outcome::Done(s1, Err(m)),
            Outcome::Done(s1, Ok(v)) => match args[0] {
                SexpV::Cell(CellV::Symbol(_, name)) => match assign(s1, name, v) {
                    Err(m) => Outcome::Done(s1, Err(m)),
                    Ok((s2, slot)) => Outcome::Done(s2, Ok(SexpV::Cell(CellV::Int(slot)))),
                },
                _ => Outcome::Done(s1, Err(msg_set_target())),
            },
        }
    }
}

/// The rounds of `(while test body)`; `last` is the latest body value.
pub open spec fn eval_while(st: Store, test: SexpV, body: SexpV, last: SexpV, f: nat, rounds: nat, orc: HostOracle) -> Outcome<SexpV>
    decreases f + 1, 0int, rounds,
{
    match eval(st, test, f, orc) {

        Outcome::Done(s1, Err(m)) => Outcome::Done(s1, Err(m)),
        Outcome::Done(s1, Ok(t)) => match truth(t) {
            Err(m) => Outcome::Done(s1, Err(m)),
            Ok(false) => Outcome::Done(s1, Ok(last)),
            Ok(true) => if rounds == 0 {
                Outcome::Done(s1, Err(msg_limit()))
            } else {
                match eval(s1, body, f, orc) {
                            Outcome::Done(s2, Err(m)) => Outcome::Done(s2, Err(m)),
                    Outcome::Done(s2, Ok(v)) => eval_while(s2, test, body, v, f, (rounds - 1) as nat, orc),
                }
            },
        },
    }
}

/// `(define name expr)` or `(define (name params...) body)`.
pub open spec fn eval_define(st: Store, args: Seq<SexpV>, f: nat, orc: HostOracle) -> Outcome<SexpV>
    decreases f + 1, 0int, 0int,
{
    let target = if args.len() > 0 { args[0] } else { SexpV::Null };
    let value = if args.len() > 1 { args[1] } else { SexpV::Null };
    if args.len() > 2 {
        Outcome::Done(st, Err(msg_define_extra(printed(target))))
    } else {
        match target {
            SexpV::Cell(CellV::Symbol(_, name)) => match eval(st, value, f, orc) {
                    Outcome::Done(s1, Err(m)) => Outcome::Done(s1, Err(m)),
                Outcome::Done(s1, Ok(v)) => match define(s1, name, v) {
                    Err(m) => Outcome::Done(s1, Err(m)),
                    Ok(s2) => Outcome::Done(s2, Ok(target)),
                },
            },
            SexpV::Cell(c) => Outcome::Done(st, Err(msg_cannot_redefine(cell_printed(c)))),
            SexpV::List(sig) => {
                let fname = if sig.len() > 0 { sig[0] } else { SexpV::Null };
                match fname {
                    SexpV::Cell(CellV::Symbol(_, name)) => {
                        let lambda = SexpV::Cell(
                            CellV::Lambda(Box::new(SexpV::List(tail(sig))), Box::new(value)),
                        );
                        match define(st, name, lambda) {
                            Err(m) => Outcome::Done(st, Err(m)),
                            Ok(s2) => Outcome::Done(s2, Ok(target)),
                        }
                    },
                    _ => Outcome::Done(st, Err(msg_invalid_function_name(printed(fname)))),
                }
            },
            SexpV::Null => Outcome::Done(st, Err(msg_define_null())),
        }
    }
}

/// Binding parameter names to values, in order, in the innermost frame.
pub open spec fn bind_each(st: Store, names: Seq<SexpV>, vals: Seq<SexpV>) -> Result<Store, Seq<char>>
    decreases names.len(),
{
    if names.len() == 0 || vals.len() == 0 {
        Ok(st)
    } else {
        match names[0] {
            SexpV::Cell(CellV::Symbol(_, name)) => match define(st, name, vals[0]) {
                Err(m) => Err(m),
                Ok(s1) => bind_each(s1, tail(names), tail(vals)),
            },
            _ => Err(msg_bad_parameter()),
        }
    }
}

pub open spec fn bind_params(st: Store, params: SexpV, vals: Seq<SexpV>) -> Result<Store, Seq<char>> {
    match params {
        SexpV::List(names) => if names.len() != vals.len() {
            Err(msg_arity_mismatch())
        } else {
            bind_each(st, names, vals)
        },
        _ => Err(msg_bad_parameter_list()),
    }
}

/// Calling the lambda bound to `name`: arguments are evaluated in the
/// caller's frame, the body in a new frame on top of it.
pub open spec fn apply_function(st: Store, name: Seq<char>, args: Seq<SexpV>, f: nat, orc: HostOracle) -> Outcome<SexpV>
    decreases f + 1, 1int, 0int,
{
    match lookup(st, name) {
        None => Outcome::Done(st, Err(msg_undefined(name))),
        Some(SexpV::Cell(CellV::Lambda(params, body))) => match eval_each(st, args, f, orc) {
            Outcome::Done(s1, Err(m)) => Outcome::Done(s1, Err(m)),
            Outcome::Done(s1, Ok(vals)) => match bind_params(s1.push_frame(), *params, vals) {
                Err(m) => Outcome::Done(s1, Err(m)),
                Ok(s2) => match eval(s2, *body, f, orc) {
                            Outcome::Done(s3, r) => Outcome::Done(s3.pop_frame(), r),
                },
            },
        },
        Some(v) => Outcome::Done(st, Err(msg_not_a_function(printed(v)))),
    }
}

/// Folding `op` over the values of `xs`, starting from `acc`.
pub open spec fn arith_fold(st: Store, op: NumericOperator, acc: CellV, xs: Seq<SexpV>, f: nat, orc: HostOracle) -> Outcome<SexpV>
    decreases f + 1, 0int, xs.len(),
{
    if xs.len() == 0 {
        Outcome::Done(st, Ok(SexpV::Cell(acc)))
    } else {
        match eval(st, xs[0], f, orc) {
            Outcome::Done(s1, Err(m)) => Outcome::Done(s1, Err(m)),
            Outcome::Done(s1, Ok(v)) => match as_number(v) {
                Err(m) => Outcome::Done(s1, Err(m)),
                Ok(n) => {
                    let (s2, res) = step_with(s1, orc, op, acc, n);
                    match res {
                        Err(m) => Outcome::Done(s2, Err(m)),
                        Ok(a2) => arith_fold(s2, op, a2, tail(xs), f, orc),
                    }
                },
            },
        }
    }
}

/// `(op a1 ... an)` for a numeric operator.
pub open spec fn apply_operator(st: Store, op: NumericOperator, args: Seq<SexpV>, f: nat, orc: HostOracle) -> Outcome<SexpV>
    decreases f + 1, 1int, 0int,
{
    if args.len() < 2 {
        Outcome::Done(st, Err(msg_requires_two(op.lexeme())))
    } else {
        match op {
            NumericOperator::Add => arith_fold(st, op, CellV::Int(0), args, f, orc),
            NumericOperator::Multiply => arith_fold(st, op, CellV::Int(1), args, f, orc),
            NumericOperator::Modulo => Outcome::Done(
                st,
                Err(msg_operator_not_implemented(op.lexeme())),
            ),
            _ => match eval(st, args[0], f, orc) {
                    Outcome::Done(s1, Err(m)) => Outcome::Done(s1, Err(m)),
                Outcome::Done(s1, Ok(v)) => match as_number(v) {
                    Err(m) => Outcome::Done(s1, Err(m)),
                    Ok(n) => arith_fold(s1, op, n, tail(args), f, orc),
                },
            },
        }
    }
}

/// Comparing `prev` with the value of `xs[0]`, then each value with the next;
/// stops at the first pair that fails.
pub open spec fn compare_chain(st: Store, op: LogicalOperator, prev: CellV, xs: Seq<SexpV>, f: nat, orc: HostOracle) -> Outcome<SexpV>
    decreases f + 1, 0int, xs.len(),
{
    if xs.len() == 0 {
        Outcome::Done(st, Ok(SexpV::Cell(CellV::Bool(true))))
    } else {
        match eval(st, xs[0], f, orc) {
            Outcome::Done(s1, Err(m)) => Outcome::Done(s1, Err(m)),
            Outcome::Done(s1, Ok(v)) => match as_number(v) {
                Err(m) => Outcome::Done(s1, Err(m)),
                Ok(n) => {
                    let (s2, t) = compare_with(s1, orc, op, prev, n);
                    if t {
                        compare_chain(s2, op, n, tail(xs), f, orc)
                    } else {
                        Outcome::Done(s2, Ok(SexpV::Cell(CellV::Bool(false))))
                    }
                },
            },
        }
    }
}

/// `or` over `xs`: true at the first true operand, false if none is.
pub open spec fn or_chain(st: Store, xs: Seq<SexpV>, f: nat, orc: HostOracle) -> Outcome<SexpV>
    decreases f + 1, 0int, xs.len(),
{
    if xs.len() == 0 {
        Outcome::Done(st, Ok(SexpV::Cell(CellV::Bool(false))))
    } else {
        match eval(st, xs[0], f, orc) {
            Outcome::Done(s1, Err(m)) => Outcome::Done(s1, Err(m)),
            Outcome::Done(s1, Ok(v)) => match truth(v) {
                Err(m) => Outcome::Done(s1, Err(m)),
                Ok(true) => Outcome::Done(s1, Ok(SexpV::Cell(CellV::Bool(true)))),
                Ok(false) => or_chain(s1, tail(xs), f, orc),
            },
        }
    }
}

/// `and` over `xs`: false at the first false operand, true if none is.
pub open spec fn and_chain(st: Store, xs: Seq<SexpV>, f: nat, orc: HostOracle) -> Outcome<SexpV>
    decreases f + 1, 0int, xs.len(),
{
    if xs.len() == 0 {
        Outcome::Done(st, Ok(SexpV::Cell(CellV::Bool(true))))
    } else {
        match eval(st, xs[0], f, orc) {
            Outcome::Done(s1, Err(m)) => Outcome::Done(s1, Err(m)),
            Outcome::Done(s1, Ok(v)) => match truth(v) {
                Err(m) => Outcome::Done(s1, Err(m)),
                Ok(false) => Outcome::Done(s1, Ok(SexpV::Cell(CellV::Bool(false)))),
                Ok(true) => and_chain(s1, tail(xs), f, orc),
            },
        }
    }
}

/// `(op a1 ... an)` for a logical operator.
pub open spec fn apply_logical(st: Store, op: LogicalOperator, args: Seq<SexpV>, f: nat, orc: HostOracle) -> Outcome<SexpV>
    decreases f + 1, 1int, 0int,
{
    if args.len() < 2 {
        Outcome::Done(st, Err(msg_requires_two(op.lexeme())))
    } else if is_comparison(op) {
        match eval(st, args[0], f, orc) {
            Outcome::Done(s1, Err(m)) => Outcome::Done(s1, Err(m)),
            Outcome::Done(s1, Ok(v)) => match as_number(v) {
                Err(m) => Outcome::Done(s1, Err(m)),
                Ok(n) => compare_chain(s1, op, n, tail(args), f, orc),
            },
        }
    } else if op is Or {
        or_chain(st, args, f, orc)
    } else if op is And {
        and_chain(st, args, f, orc)
    } else {
        Outcome::Done(st, Err(msg_operator_not_implemented(op.lexeme())))
    }
}

} // verus!
