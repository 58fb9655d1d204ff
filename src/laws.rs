//! Laws of evaluation, proved over the semantics.
use vstd::prelude::*;
use crate::primitives::{CellV, LogicalOperator, NumericOperator, SpecialForm};
use crate::semantics::{
    and_chain, apply_logical, assign, define, eval, eval_each, is_comparison, last_index, lemma_last_index,
    arith_fold, int_step, lookup, names, num_compare, or_chain, step_with, tail, HostOracle, Outcome, Store,
};
use crate::symbolic_expression::SexpV;

verus! {

/// Positions in `[i, hi)` that do not hold `name` do not change where its
/// last binding below `hi` is.
proof fn lemma_last_index_skip(binds: Seq<(Seq<char>, SexpV)>, name: Seq<char>, lo: int, i: int, hi: int)
    requires
        lo <= i <= hi,
        forall|j: int| i <= j < hi ==> #[trigger] binds[j].0 != name,
    ensures
        last_index(binds, name, lo, hi) == last_index(binds, name, lo, i),
    decreases hi - i,
{
    if hi > i {
        lemma_last_index_skip(binds, name, lo, i, hi - 1);
    }
}

/// Evaluating a cell other than a symbol gives the cell back and changes
/// nothing.
pub proof fn law_literal_idempotent(st: Store, c: CellV, fuel: nat, orc: HostOracle)
    requires
        !(c is Symbol),
    ensures
        eval(st, SexpV::Cell(c), fuel, orc) == Outcome::Done(st, Ok::<SexpV, Seq<char>>(SexpV::Cell(c))),
{
}

/// After `x` is defined as `v` in the innermost frame, evaluating `x` gives
/// `v` there and in every frame opened inside it, whatever their bindings
/// (`later`), as long as none of them binds `x` again.
pub proof fn law_lookup_after_define(
    st: Store,
    x: Seq<char>,
    v: SexpV,
    later: Seq<(Seq<char>, SexpV)>,
    starts: Seq<int>,
    out: Seq<Seq<char>>,
    asked: nat,
    id: int,
    fuel: nat,
    orc: HostOracle,
)
    requires
        define(st, x, v) is Ok,
        forall|j: int| 0 <= j < later.len() ==> #[trigger] later[j].0 != x,
    ensures
        ({
            let s2 = Store { binds: define(st, x, v)->Ok_0.binds + later, starts, out, asked };
            eval(s2, SexpV::Cell(CellV::Symbol(id, x)), fuel, orc) == Outcome::Done(s2, Ok::<SexpV, Seq<char>>(v))
        }),
{
    let binds = st.binds.push((x, v)) + later;
    let n = st.binds.len() as int;
    assert forall|j: int| n + 1 <= j < binds.len() implies #[trigger] binds[j].0 != x by {
        assert(binds[j] == later[j - n - 1]);
    }
    lemma_last_index_skip(binds, x, 0, n + 1, binds.len() as int);
    assert(binds[n] == (x, v));
}

/// `set!` on a name bound only outside the innermost frame overwrites that
/// outer binding: no binding is added, no name changes, and the innermost
/// frame is left as it was.
pub proof fn law_assign_locality(st: Store, x: Seq<char>, v: SexpV)
    requires
        st.wf(),
        lookup(st, x) is Some,
        last_index(st.binds, x, st.top_start(), st.binds.len() as int) is None,
    ensures
        assign(st, x, v) is Ok,
        ({
            let s2 = assign(st, x, v)->Ok_0.0;
            &&& s2.starts == st.starts
            &&& names(s2.binds) == names(st.binds)
            &&& s2.binds.subrange(st.top_start(), st.binds.len() as int) == st.binds.subrange(
                st.top_start(),
                st.binds.len() as int,
            )
            &&& lookup(s2, x) == Some(v)
        }),
{
    let len = st.binds.len() as int;
    let top = st.top_start();
    assert(st.starts[st.starts.len() - 1] <= len);
    lemma_last_index(st.binds, x, top, len);
    lemma_last_index_skip(st.binds, x, 0, top, len);
    lemma_last_index(st.binds, x, 0, len);
    let i = last_index(st.binds, x, 0, len)->Some_0;
    let s2 = assign(st, x, v)->Ok_0.0;
    assert(i < top);
    assert(names(s2.binds) =~= names(st.binds));
    assert(s2.binds.subrange(top, len) =~= st.binds.subrange(top, len));
    assert forall|j: int| i < j < len implies #[trigger] s2.binds[j].0 != x by {
        assert(s2.binds[j] == st.binds[j]);
    }
    lemma_last_index_skip(s2.binds, x, 0, i + 1, len);
}

/// `(set! x e)`, where `x` is bound after evaluating `e` only outside the
/// innermost frame: the value of `e` goes to that outer binding, and no
/// binding is added or renamed, nor is the innermost frame changed.
#[verifier::rlimit(40)]
pub proof fn law_set_expression_locality(st: Store, id: int, x: Seq<char>, e: SexpV, fuel: nat, orc: HostOracle)
    requires
        eval(st, e, fuel, orc) matches Outcome::Done(s1, Ok(_)) && s1.wf() && lookup(s1, x) is Some
            && last_index(s1.binds, x, s1.top_start(), s1.binds.len() as int) is None,
    ensures
        ({
            let s1 = eval(st, e, fuel, orc)->Done_0;
            let v = eval(st, e, fuel, orc)->Done_1->Ok_0;
            let expr = SexpV::List(seq![SexpV::Cell(CellV::Special(SpecialForm::SetBang)), SexpV::Cell(CellV::Symbol(id, x)), e]);
            eval(st, expr, fuel + 1, orc) matches Outcome::Done(s2, Ok(_)) && s2.starts == s1.starts
                && names(s2.binds) == names(s1.binds)
                && s2.binds.subrange(s1.top_start(), s1.binds.len() as int) == s1.binds.subrange(
                s1.top_start(),
                s1.binds.len() as int,
            ) && lookup(s2, x) == Some(v)
        }),
{
    let s1 = eval(st, e, fuel, orc)->Done_0;
    let v = eval(st, e, fuel, orc)->Done_1->Ok_0;
    let xs = seq![SexpV::Cell(CellV::Special(SpecialForm::SetBang)), SexpV::Cell(CellV::Symbol(id, x)), e];
    let args = tail(xs);
    assert(args =~= seq![SexpV::Cell(CellV::Symbol(id, x)), e]);
    assert(eval(st, SexpV::List(xs), fuel + 1, orc) == crate::semantics::eval_list(st, xs, fuel, orc));
    assert(crate::semantics::eval_list(st, xs, fuel, orc) == crate::semantics::eval_special(st, SpecialForm::SetBang, args, fuel, orc));
    law_assign_locality(s1, x, v);
    let (s2, slot) = assign(s1, x, v)->Ok_0;
    assert(crate::semantics::eval_special(st, SpecialForm::SetBang, args, fuel, orc) == crate::semantics::eval_set(st, args, fuel, orc));
    assert(crate::semantics::eval_set(st, args, fuel, orc) == Outcome::Done(s2, Ok::<SexpV, Seq<char>>(SexpV::Cell(CellV::Int(slot)))));
}

/// Literal cells.
pub open spec fn literal_cells(cs: Seq<CellV>) -> Seq<SexpV> {
    cs.map_values(|c: CellV| SexpV::Cell(c))
}

/// Folding an arithmetic operator over number literals, starting from a
/// float, gives a float, whatever the host's float arithmetic answers.
pub proof fn law_float_fold(st: Store, op: NumericOperator, acc: CellV, cs: Seq<CellV>, f: nat, orc: HostOracle)
    requires
        acc is Flt,
        !(op is Modulo),
        forall|i: int| 0 <= i < cs.len() ==> (#[trigger] cs[i]).is_number(),
    ensures
        arith_fold(st, op, acc, literal_cells(cs), f, orc) matches Outcome::Done(_, Ok(SexpV::Cell(c))) && c is Flt,
    decreases cs.len(),
{
    let xs = literal_cells(cs);
    if cs.len() > 0 {
        assert(xs[0] == SexpV::Cell(cs[0]));
        assert(cs[0].is_number());
        assert(eval(st, xs[0], f, orc) == Outcome::Done(st, Ok::<SexpV, Seq<char>>(xs[0])));
        let rest = cs.subrange(1, cs.len() as int);
        assert(tail(xs) =~= literal_cells(rest));
        let (s2, res) = step_with(st, orc, op, acc, cs[0]);
        assert(res matches Ok(c) && c is Flt);
        assert forall|i: int| 0 <= i < rest.len() implies (#[trigger] rest[i]).is_number() by {
            assert(rest[i] == cs[i + 1]);
        }
        law_float_fold(s2, op, res->Ok_0, rest, f, orc);
    }
}

/// Folding `op` from `acc` over `cs` meets no integer error before the
/// first float: every step between two integers succeeds.
pub open spec fn int_steps_ok(op: NumericOperator, acc: CellV, cs: Seq<CellV>) -> bool
    decreases cs.len(),
{
    if cs.len() == 0 || !(acc is Int) || !(cs[0] is Int) {
        true
    } else {
        match int_step(op, acc->Int_0, cs[0]->Int_0) {
            Ok(v) => int_steps_ok(op, CellV::Int(v), cs.subrange(1, cs.len() as int)),
            Err(_) => false,
        }
    }
}

pub open spec fn has_float(cs: Seq<CellV>) -> bool {
    exists|i: int| 0 <= i < cs.len() && (#[trigger] cs[i]) is Flt
}

/// Folding an arithmetic operator over number literals, when a float takes
/// part and no integer step before it fails, gives a float, whatever the
/// host's float arithmetic answers.
pub proof fn law_fold_promotes(st: Store, op: NumericOperator, acc: CellV, cs: Seq<CellV>, f: nat, orc: HostOracle)
    requires
        acc.is_number(),
        !(op is Modulo),
        forall|i: int| 0 <= i < cs.len() ==> (#[trigger] cs[i]).is_number(),
        acc is Flt || has_float(cs),
        int_steps_ok(op, acc, cs),
    ensures
        arith_fold(st, op, acc, literal_cells(cs), f, orc) matches Outcome::Done(_, Ok(SexpV::Cell(c))) && c is Flt,
    decreases cs.len(),
{
    if acc is Flt {
        law_float_fold(st, op, acc, cs, f, orc);
    } else {
        let w = choose|i: int| 0 <= i < cs.len() && (#[trigger] cs[i]) is Flt;
        let xs = literal_cells(cs);
        assert(xs[0] == SexpV::Cell(cs[0]));
        assert(cs[0].is_number());
        assert(eval(st, xs[0], f, orc) == Outcome::Done(st, Ok::<SexpV, Seq<char>>(xs[0])));
        let rest = cs.subrange(1, cs.len() as int);
        assert(tail(xs) =~= literal_cells(rest));
        assert forall|i: int| 0 <= i < rest.len() implies (#[trigger] rest[i]).is_number() by {
            assert(rest[i] == cs[i + 1]);
        }
        let (s2, res) = step_with(st, orc, op, acc, cs[0]);
        if cs[0] is Flt {
            law_float_fold(s2, op, res->Ok_0, rest, f, orc);
        } else {
            assert(w > 0);
            assert(rest[w - 1] is Flt);
            law_fold_promotes(s2, op, res->Ok_0, rest, f, orc);
        }
    }
}

/// `(op x1 ... xn)` over number literals, one of them a float, gives a
/// float whatever the host's float arithmetic answers, unless an integer
/// step before the first float fails.
pub proof fn law_float_operator(st: Store, op: NumericOperator, cs: Seq<CellV>, fuel: nat, orc: HostOracle)
    requires
        !(op is Modulo),
        cs.len() >= 2,
        has_float(cs),
        forall|i: int| 0 <= i < cs.len() ==> (#[trigger] cs[i]).is_number(),
        if op is Add || op is Multiply {
            int_steps_ok(op, CellV::Int(if op is Add { 0 } else { 1 }), cs)
        } else {
            int_steps_ok(op, cs[0], cs.subrange(1, cs.len() as int))
        },
    ensures
        eval(st, SexpV::List(seq![SexpV::Cell(CellV::Op(op))] + literal_cells(cs)), fuel + 1, orc) matches Outcome::Done(
            _,
            Ok(SexpV::Cell(c)),
        ) && c is Flt,
{
    let e = seq![SexpV::Cell(CellV::Op(op))] + literal_cells(cs);
    let xs = literal_cells(cs);
    assert(tail(e) =~= xs);
    assert(e[0] == SexpV::Cell(CellV::Op(op)));
    assert(eval(st, SexpV::List(e), fuel + 1, orc) == crate::semantics::eval_list(st, e, fuel, orc));
    assert(crate::semantics::eval_list(st, e, fuel, orc) == crate::semantics::apply_operator(st, op, xs, fuel, orc));
    assert(xs[0] == SexpV::Cell(cs[0]));
    assert(cs[0].is_number());
    assert(eval(st, xs[0], fuel, orc) == Outcome::Done(st, Ok::<SexpV, Seq<char>>(xs[0])));
    let rest = cs.subrange(1, cs.len() as int);
    assert(tail(xs) =~= literal_cells(rest));
    assert forall|i: int| 0 <= i < rest.len() implies (#[trigger] rest[i]).is_number() by {
        assert(rest[i] == cs[i + 1]);
    }
    if op is Add || op is Multiply {
        let start = if op is Add { CellV::Int(0) } else { CellV::Int(1) };
        law_fold_promotes(st, op, start, cs, fuel, orc);
    } else {
        if !(cs[0] is Flt) {
            let w = choose|i: int| 0 <= i < cs.len() && (#[trigger] cs[i]) is Flt;
            assert(rest[w - 1] is Flt);
        }
        law_fold_promotes(st, op, cs[0], rest, fuel, orc);
    }
}

/// Folding an arithmetic operator over integer literals, starting from an
/// integer, gives an integer, unless a step overflows or divides by zero.
pub proof fn law_int_fold(st: Store, op: NumericOperator, acc: int, xs: Seq<int>, f: nat, orc: HostOracle)
    requires
        !(op is Modulo),
    ensures
        arith_fold(st, op, CellV::Int(acc), int_cells(xs), f, orc) matches Outcome::Done(s2, res) && s2 == st && (
        res matches Ok(SexpV::Cell(c)) ==> c is Int),
    decreases xs.len(),
{
    let cs = int_cells(xs);
    if xs.len() > 0 {
        assert(cs[0] == SexpV::Cell(CellV::Int(xs[0])));
        assert(eval(st, cs[0], f, orc) == Outcome::Done(st, Ok::<SexpV, Seq<char>>(cs[0])));
        let rest = xs.subrange(1, xs.len() as int);
        assert(tail(cs) =~= int_cells(rest));
        if let Ok(v) = int_step(op, acc, xs[0]) {
            law_int_fold(st, op, v, rest, f, orc);
        }
    }
}

proof fn lemma_compare_chain_numbers(st: Store, op: LogicalOperator, prev: CellV, cs: Seq<CellV>, f: nat, orc: HostOracle)
    requires
        is_comparison(op),
        prev.is_number(),
        forall|i: int| 0 <= i < cs.len() ==> (#[trigger] cs[i]).is_number(),
    ensures
        crate::semantics::compare_chain(st, op, prev, literal_cells(cs), f, orc) matches Outcome::Done(
            _,
            Ok(SexpV::Cell(CellV::Bool(_))),
        ),
    decreases cs.len(),
{
    let xs = literal_cells(cs);
    if cs.len() > 0 {
        assert(xs[0] == SexpV::Cell(cs[0]));
        assert(cs[0].is_number());
        assert(eval(st, xs[0], f, orc) == Outcome::Done(st, Ok::<SexpV, Seq<char>>(xs[0])));
        let rest = cs.subrange(1, cs.len() as int);
        assert(tail(xs) =~= literal_cells(rest));
        assert forall|i: int| 0 <= i < rest.len() implies (#[trigger] rest[i]).is_number() by {
            assert(rest[i] == cs[i + 1]);
        }
        let (s2, t) = crate::semantics::compare_with(st, orc, op, prev, cs[0]);
        lemma_compare_chain_numbers(s2, op, cs[0], rest, f, orc);
    }
}

/// A comparison `(op a1 ... an)` over number literals, integers or floats,
/// gives a boolean, whatever the host's float comparisons answer.
pub proof fn law_comparison_numbers(st: Store, op: LogicalOperator, cs: Seq<CellV>, fuel: nat, orc: HostOracle)
    requires
        is_comparison(op),
        cs.len() >= 2,
        forall|i: int| 0 <= i < cs.len() ==> (#[trigger] cs[i]).is_number(),
    ensures
        eval(st, SexpV::List(seq![SexpV::Cell(CellV::Logical(op))] + literal_cells(cs)), fuel + 1, orc) matches Outcome::Done(
            _,
            Ok(SexpV::Cell(CellV::Bool(_))),
        ),
{
    let e = seq![SexpV::Cell(CellV::Logical(op))] + literal_cells(cs);
    let xs = literal_cells(cs);
    assert(tail(e) =~= xs);
    assert(e[0] == SexpV::Cell(CellV::Logical(op)));
    assert(eval(st, SexpV::List(e), fuel + 1, orc) == crate::semantics::eval_list(st, e, fuel, orc));
    assert(crate::semantics::eval_list(st, e, fuel, orc) == apply_logical(st, op, xs, fuel, orc));
    assert(xs[0] == SexpV::Cell(cs[0]));
    assert(cs[0].is_number());
    assert(eval(st, xs[0], fuel, orc) == Outcome::Done(st, Ok::<SexpV, Seq<char>>(xs[0])));
    let rest = cs.subrange(1, cs.len() as int);
    assert(tail(xs) =~= literal_cells(rest));
    assert forall|i: int| 0 <= i < rest.len() implies (#[trigger] rest[i]).is_number() by {
        assert(rest[i] == cs[i + 1]);
    }
    lemma_compare_chain_numbers(st, op, cs[0], rest, fuel, orc);
}

/// Every value is an integer cell.
pub open spec fn all_ints(vs: Seq<SexpV>) -> bool {
    forall|i: int| 0 <= i < vs.len() ==> (#[trigger] vs[i]) matches SexpV::Cell(CellV::Int(_))
}

/// The integers that integer cells hold.
pub open spec fn int_values(vs: Seq<SexpV>) -> Seq<int> {
    vs.map_values(|v: SexpV| v->Cell_0->Int_0)
}

/// Folding an arithmetic operator over operand expressions whose values are
/// all integers gives an integer, or an error.
pub proof fn law_int_fold_exprs(st: Store, op: NumericOperator, acc: int, xs: Seq<SexpV>, f: nat, orc: HostOracle)
    requires
        !(op is Modulo),
        eval_each(st, xs, f, orc) matches Outcome::Done(_, Ok(vs)) && all_ints(vs),
    ensures
        arith_fold(st, op, CellV::Int(acc), xs, f, orc) matches Outcome::Done(_, res) && (res matches Ok(
            SexpV::Cell(c),
        ) ==> c is Int),
    decreases xs.len(),
{
    if xs.len() > 0 {
        let vs = eval_each(st, xs, f, orc)->Done_1->Ok_0;
        let sa = eval(st, xs[0], f, orc)->Done_0;
        let v0 = eval(st, xs[0], f, orc)->Done_1->Ok_0;
        let rest = eval_each(sa, tail(xs), f, orc)->Done_1->Ok_0;
        assert(vs == seq![v0] + rest);
        assert(vs[0] == v0);
        assert forall|i: int| 0 <= i < rest.len() implies (#[trigger] rest[i]) matches SexpV::Cell(CellV::Int(_)) by {
            assert(rest[i] == vs[i + 1]);
        }
        if let Ok(v) = int_step(op, acc, v0->Cell_0->Int_0) {
            law_int_fold_exprs(sa, op, v, tail(xs), f, orc);
        }
    }
}

/// `(op e1 ... en)` whose operands evaluate, one after another, to integers
/// gives an integer, or an error (overflow, division by zero).
pub proof fn law_int_operator_exprs(st: Store, op: NumericOperator, xs: Seq<SexpV>, fuel: nat, orc: HostOracle)
    requires
        !(op is Modulo),
        xs.len() >= 2,
        eval_each(st, xs, fuel, orc) matches Outcome::Done(_, Ok(vs)) && all_ints(vs),
    ensures
        eval(st, SexpV::List(seq![SexpV::Cell(CellV::Op(op))] + xs), fuel + 1, orc) matches Outcome::Done(_, res)
            && (res matches Ok(SexpV::Cell(c)) ==> c is Int),
{
    let e = seq![SexpV::Cell(CellV::Op(op))] + xs;
    assert(tail(e) =~= xs);
    assert(e[0] == SexpV::Cell(CellV::Op(op)));
    assert(eval(st, SexpV::List(e), fuel + 1, orc) == crate::semantics::eval_list(st, e, fuel, orc));
    assert(crate::semantics::eval_list(st, e, fuel, orc) == crate::semantics::apply_operator(st, op, xs, fuel, orc));
    if op is Add || op is Multiply {
        law_int_fold_exprs(st, op, if op is Add { 0 } else { 1 }, xs, fuel, orc);
    } else {
        let vs = eval_each(st, xs, fuel, orc)->Done_1->Ok_0;
        let sa = eval(st, xs[0], fuel, orc)->Done_0;
        let v0 = eval(st, xs[0], fuel, orc)->Done_1->Ok_0;
        let rest = eval_each(sa, tail(xs), fuel, orc)->Done_1->Ok_0;
        assert(vs == seq![v0] + rest);
        assert(vs[0] == v0);
        assert forall|i: int| 0 <= i < rest.len() implies (#[trigger] rest[i]) matches SexpV::Cell(CellV::Int(_)) by {
            assert(rest[i] == vs[i + 1]);
        }
        law_int_fold_exprs(sa, op, v0->Cell_0->Int_0, tail(xs), fuel, orc);
    }
}

proof fn lemma_compare_chain_exprs(st: Store, op: LogicalOperator, prev: int, xs: Seq<SexpV>, f: nat, orc: HostOracle)
    requires
        is_comparison(op),
        eval_each(st, xs, f, orc) matches Outcome::Done(_, Ok(vs)) && all_ints(vs),
    ensures
        crate::semantics::compare_chain(st, op, CellV::Int(prev), xs, f, orc) matches Outcome::Done(
            _,
            Ok(SexpV::Cell(CellV::Bool(b))),
        ) && b == chain_from(op, prev, int_values(eval_each(st, xs, f, orc)->Done_1->Ok_0)),
    decreases xs.len(),
{
    let vs = eval_each(st, xs, f, orc)->Done_1->Ok_0;
    if xs.len() > 0 {
        let sa = eval(st, xs[0], f, orc)->Done_0;
        let v0 = eval(st, xs[0], f, orc)->Done_1->Ok_0;
        let rest = eval_each(sa, tail(xs), f, orc)->Done_1->Ok_0;
        assert(vs == seq![v0] + rest);
        assert(vs[0] == v0);
        assert forall|i: int| 0 <= i < rest.len() implies (#[trigger] rest[i]) matches SexpV::Cell(CellV::Int(_)) by {
            assert(rest[i] == vs[i + 1]);
        }
        let ys = int_values(vs);
        assert(ys[0] == v0->Cell_0->Int_0);
        assert(ys.subrange(1, ys.len() as int) =~= int_values(rest));
        lemma_compare_chain_exprs(sa, op, v0->Cell_0->Int_0, tail(xs), f, orc);
    } else {
        assert(int_values(vs).len() == 0);
    }
}

/// A comparison `(op e1 ... en)` whose operands evaluate, one after
/// another, to integers `a1 ... an` is true exactly when each `ai` stands in
/// relation `op` to `ai+1`.
pub proof fn law_comparison_chain_exprs(st: Store, op: LogicalOperator, xs: Seq<SexpV>, fuel: nat, orc: HostOracle)
    requires
        is_comparison(op),
        xs.len() >= 2,
        eval_each(st, xs, fuel, orc) matches Outcome::Done(_, Ok(vs)) && all_ints(vs),
    ensures
        eval(st, SexpV::List(seq![SexpV::Cell(CellV::Logical(op))] + xs), fuel + 1, orc) matches Outcome::Done(
            _,
            Ok(SexpV::Cell(CellV::Bool(b))),
        ) && b == chain_holds(op, int_values(eval_each(st, xs, fuel, orc)->Done_1->Ok_0)),
{
    let e = seq![SexpV::Cell(CellV::Logical(op))] + xs;
    assert(tail(e) =~= xs);
    assert(e[0] == SexpV::Cell(CellV::Logical(op)));
    assert(eval(st, SexpV::List(e), fuel + 1, orc) == crate::semantics::eval_list(st, e, fuel, orc));
    assert(crate::semantics::eval_list(st, e, fuel, orc) == apply_logical(st, op, xs, fuel, orc));
    let vs = eval_each(st, xs, fuel, orc)->Done_1->Ok_0;
    let sa = eval(st, xs[0], fuel, orc)->Done_0;
    let v0 = eval(st, xs[0], fuel, orc)->Done_1->Ok_0;
    let rest = eval_each(sa, tail(xs), fuel, orc)->Done_1->Ok_0;
    assert(vs == seq![v0] + rest);
    assert(vs[0] == v0);
    assert forall|i: int| 0 <= i < rest.len() implies (#[trigger] rest[i]) matches SexpV::Cell(CellV::Int(_)) by {
        assert(rest[i] == vs[i + 1]);
    }
    lemma_compare_chain_exprs(sa, op, v0->Cell_0->Int_0, tail(xs), fuel, orc);
    let ys = int_values(vs);
    assert(ys.subrange(1, ys.len() as int) =~= int_values(rest));
    lemma_chain_from(op, ys[0], ys.subrange(1, ys.len() as int));
    assert(seq![ys[0]] + ys.subrange(1, ys.len() as int) =~= ys);
}

/// Integer literal cells.
pub open spec fn int_cells(xs: Seq<int>) -> Seq<SexpV> {
    xs.map_values(|i: int| SexpV::Cell(CellV::Int(i)))
}

/// Whether each integer stands in relation `op` to the next.
pub open spec fn chain_holds(op: LogicalOperator, xs: Seq<int>) -> bool {
    forall|i: int| 0 <= i < xs.len() - 1 ==> num_compare(op, CellV::Int(#[trigger] xs[i]), CellV::Int(xs[i + 1]))
        == Some(true)
}

/// `prev` and then `ys` form a chain under `op`, pair by pair from the front.
pub open spec fn chain_from(op: LogicalOperator, prev: int, ys: Seq<int>) -> bool
    decreases ys.len(),
{
    if ys.len() == 0 {
        true
    } else {
        num_compare(op, CellV::Int(prev), CellV::Int(ys[0])) == Some(true) && chain_from(
            op,
            ys[0],
            ys.subrange(1, ys.len() as int),
        )
    }
}

proof fn lemma_chain_from(op: LogicalOperator, prev: int, ys: Seq<int>)
    ensures
        chain_from(op, prev, ys) == chain_holds(op, seq![prev] + ys),
    decreases ys.len(),
{
    let all = seq![prev] + ys;
    if ys.len() > 0 {
        let rest = ys.subrange(1, ys.len() as int);
        lemma_chain_from(op, ys[0], rest);
        assert(seq![ys[0]] + rest =~= ys);
        assert(all[0] == prev && all[1] == ys[0]);
        if chain_holds(op, ys) && num_compare(op, CellV::Int(prev), CellV::Int(ys[0])) == Some(true) {
            assert forall|i: int| 0 <= i < all.len() - 1 implies num_compare(
                op,
                CellV::Int(#[trigger] all[i]),
                CellV::Int(all[i + 1]),
            ) == Some(true) by {
                if i > 0 {
                    assert(all[i] == ys[i - 1]);
                    assert(all[i + 1] == ys[i]);
                }
            }
        }
        if chain_holds(op, all) {
            assert forall|i: int| 0 <= i < ys.len() - 1 implies num_compare(
                op,
                CellV::Int(#[trigger] ys[i]),
                CellV::Int(ys[i + 1]),
            ) == Some(true) by {
                assert(all[i + 1] == ys[i]);
                assert(all[i + 2] == ys[i + 1]);
            }
        }
    }
}

proof fn lemma_compare_chain_ints(st: Store, op: LogicalOperator, prev: int, ys: Seq<int>, f: nat, orc: HostOracle)
    requires
        is_comparison(op),
    ensures
        crate::semantics::compare_chain(st, op, CellV::Int(prev), int_cells(ys), f, orc) == Outcome::Done(
            st,
            Ok::<SexpV, Seq<char>>(SexpV::Cell(CellV::Bool(chain_from(op, prev, ys)))),
        ),
    decreases ys.len(),
{
    let cs = int_cells(ys);
    if ys.len() > 0 {
        assert(cs[0] == SexpV::Cell(CellV::Int(ys[0])));
        assert(eval(st, cs[0], f, orc) == Outcome::Done(st, Ok::<SexpV, Seq<char>>(cs[0])));
        assert(tail(cs) =~= int_cells(ys.subrange(1, ys.len() as int)));
        lemma_compare_chain_ints(st, op, ys[0], ys.subrange(1, ys.len() as int), f, orc);
    }
}

/// A comparison over integer literals, `(op a1 ... an)` with `n >= 2`, is
/// true exactly when each `ai` stands in relation `op` to `ai+1`.
pub proof fn law_comparison_chain(st: Store, op: LogicalOperator, xs: Seq<int>, fuel: nat, orc: HostOracle)
    requires
        is_comparison(op),
        xs.len() >= 2,
    ensures
        eval(st, SexpV::List(seq![SexpV::Cell(CellV::Logical(op))] + int_cells(xs)), fuel + 1, orc)
            == Outcome::Done(st, Ok::<SexpV, Seq<char>>(SexpV::Cell(CellV::Bool(chain_holds(op, xs))))),
{
    let e = seq![SexpV::Cell(CellV::Logical(op))] + int_cells(xs);
    assert(tail(e) =~= int_cells(xs));
    let args = int_cells(xs);
    assert(args[0] == SexpV::Cell(CellV::Int(xs[0])));
    assert(tail(args) =~= int_cells(xs.subrange(1, xs.len() as int)));
    lemma_compare_chain_ints(st, op, xs[0], xs.subrange(1, xs.len() as int), fuel, orc);
    lemma_chain_from(op, xs[0], xs.subrange(1, xs.len() as int));
    assert(seq![xs[0]] + xs.subrange(1, xs.len() as int) =~= xs);
    assert(e[0] == SexpV::Cell(CellV::Logical(op)));
    assert(eval(st, SexpV::List(e), fuel + 1, orc) == crate::semantics::eval_list(st, e, fuel, orc));
    assert(crate::semantics::eval_list(st, e, fuel, orc) == apply_logical(st, op, tail(e), fuel, orc));
}

/// Once the operands `xs` of `or` have made it true, operands after them
/// are never evaluated: the state, and so the output, is that after `xs`.
pub proof fn law_or_short_circuit(st: Store, xs: Seq<SexpV>, ys: Seq<SexpV>, f: nat, orc: HostOracle)
    requires
        or_chain(st, xs, f, orc) matches Outcome::Done(_, Ok(SexpV::Cell(CellV::Bool(b)))) && b,
    ensures
        or_chain(st, xs + ys, f, orc) == or_chain(st, xs, f, orc),
    decreases xs.len(),
{
    assert((xs + ys)[0] == xs[0]);
    assert(tail(xs + ys) =~= tail(xs) + ys);
    if let Outcome::Done(s1, Ok(v)) = eval(st, xs[0], f, orc) {
        if crate::semantics::truth(v) == Ok::<bool, Seq<char>>(false) {
            law_or_short_circuit(s1, tail(xs), ys, f, orc);
        }
    }
}

/// Once the operands `xs` of `and` have made it false, operands after them
/// are never evaluated: the state, and so the output, is that after `xs`.
pub proof fn law_and_short_circuit(st: Store, xs: Seq<SexpV>, ys: Seq<SexpV>, f: nat, orc: HostOracle)
    requires
        and_chain(st, xs, f, orc) matches Outcome::Done(_, Ok(SexpV::Cell(CellV::Bool(b)))) && !b,
    ensures
        and_chain(st, xs + ys, f, orc) == and_chain(st, xs, f, orc),
    decreases xs.len(),
{
    assert((xs + ys)[0] == xs[0]);
    assert(tail(xs + ys) =~= tail(xs) + ys);
    if let Outcome::Done(s1, Ok(v)) = eval(st, xs[0], f, orc) {
        if crate::semantics::truth(v) == Ok::<bool, Seq<char>>(true) {
            law_and_short_circuit(s1, tail(xs), ys, f, orc);
        }
    }
}

/// `(or x1 ... xn y1 ... ym)` where `x1 ... xn` already make it true: the
/// `y`s are not evaluated.
pub proof fn law_or_expression_short_circuit(st: Store, xs: Seq<SexpV>, ys: Seq<SexpV>, fuel: nat, orc: HostOracle)
    requires
        (xs + ys).len() >= 2,
        or_chain(st, xs, fuel, orc) matches Outcome::Done(_, Ok(SexpV::Cell(CellV::Bool(b)))) && b,
    ensures
        eval(st, SexpV::List(seq![SexpV::Cell(CellV::Logical(LogicalOperator::Or))] + xs + ys), fuel + 1, orc)
            == or_chain(st, xs, fuel, orc),
{
    let e = seq![SexpV::Cell(CellV::Logical(LogicalOperator::Or))] + xs + ys;
    assert(tail(e) =~= xs + ys);
    law_or_short_circuit(st, xs, ys, fuel, orc);
    assert(e[0] == SexpV::Cell(CellV::Logical(LogicalOperator::Or)));
    assert(eval(st, SexpV::List(e), fuel + 1, orc) == crate::semantics::eval_list(st, e, fuel, orc));
    assert(crate::semantics::eval_list(st, e, fuel, orc) == apply_logical(st, LogicalOperator::Or, tail(e), fuel, orc));
}

/// `(and x1 ... xn y1 ... ym)` where `x1 ... xn` already make it false: the
/// `y`s are not evaluated.
pub proof fn law_and_expression_short_circuit(st: Store, xs: Seq<SexpV>, ys: Seq<SexpV>, fuel: nat, orc: HostOracle)
    requires
        (xs + ys).len() >= 2,
        and_chain(st, xs, fuel, orc) matches Outcome::Done(_, Ok(SexpV::Cell(CellV::Bool(b)))) && !b,
    ensures
        eval(st, SexpV::List(seq![SexpV::Cell(CellV::Logical(LogicalOperator::And))] + xs + ys), fuel + 1, orc)
            == and_chain(st, xs, fuel, orc),
{
    let e = seq![SexpV::Cell(CellV::Logical(LogicalOperator::And))] + xs + ys;
    assert(tail(e) =~= xs + ys);
    law_and_short_circuit(st, xs, ys, fuel, orc);
    assert(e[0] == SexpV::Cell(CellV::Logical(LogicalOperator::And)));
    assert(eval(st, SexpV::List(e), fuel + 1, orc) == crate::semantics::eval_list(st, e, fuel, orc));
    assert(crate::semantics::eval_list(st, e, fuel, orc) == apply_logical(st, LogicalOperator::And, tail(e), fuel, orc));
}

} // verus!
