//! Arithmetic and comparison on number cells, with integer/float promotion.
use vstd::prelude::*;
use crate::errors::{err_text, fixed};
use crate::primitives::{Cell, CellV, FloatArith, LogicalOperator, NumericOperator};
use crate::semantics::{int_step, is_comparison, num_compare, num_step};

verus! {

/// Integer arithmetic within 64 bits; overflow and division by zero are errors.
pub fn int_arith(op: NumericOperator, x: i64, y: i64) -> (r: Result<i64, String>)
    requires
        !(op is Modulo),
    ensures
        int_step(op, x as int, y as int) matches Ok(v) ==> r matches Ok(w) && w as int == v,
        int_step(op, x as int, y as int) matches Err(m) ==> r is Err && err_text(r) == m,
{
    match op {
        NumericOperator::Add => match x.checked_add(y) {
            Some(v) => Ok(v),
            None => Err(fixed("Integer overflow")),
        },
        NumericOperator::Subtract => match x.checked_sub(y) {
            Some(v) => Ok(v),
            None => Err(fixed("Integer overflow")),
        },
        NumericOperator::Multiply => match x.checked_mul(y) {
            Some(v) => Ok(v),
            None => Err(fixed("Integer overflow")),
        },
        _ => {
            if y == 0 {
                Err(fixed("Division by zero"))
            } else {
                match x.checked_div(y) {
                    Some(v) => Ok(v),
                    None => Err(fixed("Integer overflow")),
                }
            }
        },
    }
}

/// One step of `op` on two numbers. Two integers give an integer (or an
/// overflow / division-by-zero error); a float on either side gives a float.
pub fn arith_step<F: FloatArith>(arith: &F, op: NumericOperator, a: &Cell, b: &Cell) -> (r: Result<Cell, String>)
    requires
        a@.is_number(),
        b@.is_number(),
        !(op is Modulo),
    ensures
        num_step(op, a@, b@) matches Some(Ok(c)) ==> r is Ok && r->Ok_0@ == c,
        num_step(op, a@, b@) matches Some(Err(m)) ==> r is Err && err_text(r) == m,
        (a@ is Int && b@ is Int) ==> (r is Ok ==> r->Ok_0@ is Int),
        (a@ is Flt || b@ is Flt) ==> r is Ok && r->Ok_0@ is Flt,
{
    match (a, b) {
        (Cell::Int(x), Cell::Int(y)) => match int_arith(op, *x, *y) {
            Ok(v) => Ok(Cell::Int(v)),
            Err(m) => Err(m),
        },
        _ => Ok(Cell::Flt(arith.arith(op, a, b))),
    }
}

/// Compares two numbers with a comparison operator.
pub fn compare<F: FloatArith>(arith: &F, op: LogicalOperator, a: &Cell, b: &Cell) -> (r: bool)
    requires
        a@.is_number(),
        b@.is_number(),
        is_comparison(op),
    ensures
        num_compare(op, a@, b@) matches Some(t) ==> r == t,
{
    match (a, b) {
        (Cell::Int(x), Cell::Int(y)) => match op {
            LogicalOperator::Less => *x < *y,
            LogicalOperator::Greater => *x > *y,
            LogicalOperator::Equal => *x == *y,
            LogicalOperator::LessEqual => *x <= *y,
            _ => *x >= *y,
        },
        _ => arith.compare(op, a, b),
    }
}

} // verus!
