//! Built-in procedures on lists and type predicates.
use vstd::prelude::*;
use crate::errors::{fixed, message, result_view, suffixed};
use crate::list::{Link, List};
use crate::primitives::{Cell, CellV, CoreFunc};
use crate::semantics::{car_of, cdr_of, append_all, core_apply, core_implemented, tail};
use crate::symbolic_expression::{SExpression, SexpV};

verus! {

/// Whether the built-in procedure is provided.
pub fn is_implemented(func: CoreFunc) -> (r: bool)
    ensures
        r == core_implemented(func),
{
    match func {
        CoreFunc::List | CoreFunc::Cons | CoreFunc::Car | CoreFunc::First | CoreFunc::Cdr
        | CoreFunc::Rest | CoreFunc::Append | CoreFunc::IsNull | CoreFunc::IsNumber
        | CoreFunc::IsList | CoreFunc::IsBoolean | CoreFunc::IsString | CoreFunc::IsExact => true,
        _ => false,
    }
}

/// Appends copies of the elements of `link` to `out`.
fn push_elems(link: &Link, out: &mut Vec<SExpression>)
    ensures
        final(out)@.map_values(|e: SExpression| e@) == old(out)@.map_values(|e: SExpression| e@) + link.elems(),
    decreases link,
{
    proof {
        link.lemma_unfold();
    }
    match link {
        Link::Nil => {
            assert(out@.map_values(|e: SExpression| e@) =~= old(out)@.map_values(|e: SExpression| e@) + link.elems());
        },
        Link::Data(p) => {
            let ghost before = out@.map_values(|e: SExpression| e@);
            out.push((*p.car).copy());
            assert(out@.map_values(|e: SExpression| e@) =~= before.push((*p.car)@));
            push_elems(&p.cdr, out);
            assert(out@.map_values(|e: SExpression| e@) =~= before + link.elems());
        },
    }
}

/// The elements of the lists `vals[i..]`, appended to `out`; `false` if one
/// of them is not a list.
fn append_from(vals: &Vec<SExpression>, i: usize, out: &mut Vec<SExpression>) -> (ok: bool)
    requires
        i <= vals@.len(),
    ensures
        match append_all(vals@.map_values(|e: SExpression| e@).subrange(i as int, vals@.len() as int)) {
            Some(xs) => ok && final(out)@.map_values(|e: SExpression| e@) == old(out)@.map_values(|e: SExpression| e@) + xs,
            None => !ok,
        },
    decreases vals@.len() - i,
{
    let ghost vs = vals@.map_values(|e: SExpression| e@).subrange(i as int, vals@.len() as int);
    if i == vals.len() {
        assert(out@.map_values(|e: SExpression| e@) =~= old(out)@.map_values(|e: SExpression| e@) + Seq::<SexpV>::empty());
        return true;
    }
    assert(vs[0] == vals@[i as int]@);
    assert(tail(vs) =~= vals@.map_values(|e: SExpression| e@).subrange(i + 1, vals@.len() as int));
    match &vals[i] {
        SExpression::List(l) => {
            let ghost before = out@.map_values(|e: SExpression| e@);
            push_elems(&l.head, out);
            let ok = append_from(vals, i + 1, out);
            proof {
                if let Some(rest) = append_all(tail(vs)) {
                    assert(out@.map_values(|e: SExpression| e@) =~= before + (l@ + rest));
                }
            }
            ok
        },
        _ => false,
    }
}

fn car_value(name: &str, v: &SExpression) -> (r: Result<SExpression, String>)
    ensures
        result_view(r) == car_of(name@, v@),
{
    match v {
        SExpression::List(l) => {
            if l.is_empty() {
                Err(suffixed(name, ": empty list"))
            } else {
                Ok(*l.first())
            }
        },
        _ => Err(suffixed(name, ": not a list")),
    }
}

fn cdr_value(name: &str, v: &SExpression) -> (r: Result<SExpression, String>)
    ensures
        result_view(r) == cdr_of(name@, v@),
{
    match v {
        SExpression::List(l) => {
            if l.is_empty() {
                Err(suffixed(name, ": empty list"))
            } else {
                Ok(SExpression::List(l.rest()))
            }
        },
        _ => Err(suffixed(name, ": not a list")),
    }
}

/// Applies a built-in procedure to argument values.
pub fn apply_core(func: CoreFunc, vals: Vec<SExpression>) -> (r: Result<SExpression, String>)
    ensures
        result_view(r) == core_apply(func, vals@.map_values(|e: SExpression| e@)),
{
    let ghost vs = vals@.map_values(|e: SExpression| e@);
    let name = func.print();
    match func {
        CoreFunc::List => {
            let l = List::make_from_sexps(vals);
            return Ok(SExpression::List(l));
        },
        CoreFunc::Append => {
            let mut out: Vec<SExpression> = Vec::new();
            assert(vs.subrange(0, vs.len() as int) =~= vs);
            if append_from(&vals, 0, &mut out) {
                assert(out@.map_values(|e: SExpression| e@) =~= Seq::<SexpV>::empty() + append_all(vs)->Some_0);
                return Ok(SExpression::List(List::make_from_sexps(out)));
            } else {
                return Err(suffixed(name, ": not a list"));
            }
        },
        CoreFunc::Cons => {
            if vals.len() != 2 {
                return Err(message("Core function ", name, " takes the wrong number of arguments"));
            }
            assert(vs[0] == vals@[0]@ && vs[1] == vals@[1]@);
            let a = vals[0].copy();
            let b = vals[1].copy();
            return Ok(SExpression::List(List::construct_list(a, b)));
        },
        _ => {},
    }
    if vals.len() != 1 {
        return Err(message("Core function ", name, " takes the wrong number of arguments"));
    }
    let v = &vals[0];
    assert(vs[0] == v@);
    match func {
        CoreFunc::Car => car_value(name, v),
        CoreFunc::First => car_value(name, v),
        CoreFunc::Cdr => cdr_value(name, v),
        CoreFunc::Rest => cdr_value(name, v),
        CoreFunc::IsNull => {
            let b = match v {
                SExpression::Null => true,
                SExpression::List(l) => l.is_empty(),
                _ => false,
            };
            proof {
                if let SExpression::List(l) = v {
                    if l@.len() == 0 {
                        assert(l@ =~= Seq::<SexpV>::empty());
                    }
                }
            }
            Ok(SExpression::Cell(Cell::Bool(b)))
        },
        CoreFunc::IsNumber => Ok(SExpression::Cell(Cell::Bool(matches!(v, SExpression::Cell(Cell::Int(_)) | SExpression::Cell(Cell::Flt(_)))))),
        CoreFunc::IsList => Ok(SExpression::Cell(Cell::Bool(matches!(v, SExpression::List(_))))),
        CoreFunc::IsBoolean => Ok(SExpression::Cell(Cell::Bool(matches!(v, SExpression::Cell(Cell::Bool(_)))))),
        CoreFunc::IsString => Ok(SExpression::Cell(Cell::Bool(matches!(v, SExpression::Cell(Cell::Str(_)))))),
        CoreFunc::IsExact => match v {
            SExpression::Cell(Cell::Int(_)) => Ok(SExpression::Cell(Cell::Bool(true))),
            SExpression::Cell(Cell::Flt(_)) => Ok(SExpression::Cell(Cell::Bool(false))),
            _ => Err(fixed("Not a number type!")),
        },
        _ => Err(message("Core function ", name, " not implemented")),
    }
}

} // verus!
