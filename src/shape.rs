//! Array shapes and the flattening of braced initializers.
use vstd::prelude::*;
use crate::ast::{CheckError, Expr, Initializer, TypeView};
use crate::expr::{type_of, value_of};
use crate::table::{Frame, SymbolTable};

verus! {

/// The number of elements of an array of shape `d`.
pub open spec fn size(d: Seq<usize>) -> int
    decreases d.len(),
{
    if d.len() == 0 {
        1
    } else {
        d[0] * size(d.drop_first())
    }
}

/// Every trailing part of the shape has an element count that fits in `usize`.
pub open spec fn fits(d: Seq<usize>) -> bool {
    forall|i: int| 0 <= i <= d.len() ==> #[trigger] size(d.subrange(i, d.len() as int)) <= usize::MAX
}

pub open spec fn zeros(n: nat) -> Seq<i32> {
    Seq::new(n, |i: int| 0i32)
}

/// The declared lengths `es`, left to right; each must be a non-negative constant.
pub open spec fn dims_of(fr: Seq<Frame>, es: Seq<Expr>) -> Result<Seq<usize>, CheckError>
    decreases es.len(),
{
    if es.len() == 0 {
        Ok(Seq::empty())
    } else {
        match dims_of(fr, es.drop_last()) {
            Err(x) => Err(x),
            Ok(d) => match value_of(fr, es.last()) {
                Err(x) => Err(x),
                Ok(v) => if v < 0 {
                    Err(CheckError::NotConstant)
                } else {
                    Ok(d.push(v as usize))
                },
            },
        }
    }
}

/// One scalar element: its value for a constant array, else `0` once it types as `int`.
pub open spec fn element(fr: Seq<Frame>, e: Expr, is_const: bool) -> Result<i32, CheckError> {
    if is_const {
        value_of(fr, e)
    } else {
        match type_of(fr, e) {
            Err(x) => Err(x),
            Ok(TypeView::Int) => Ok(0),
            Ok(_) => Err(CheckError::TypeMismatch),
        }
    }
}

/// `pos` rounded up to a multiple of `s`.
pub open spec fn align(pos: int, s: int) -> int {
    if pos % s == 0 {
        pos
    } else {
        pos + (s - pos % s)
    }
}

/// The positions of an array of shape `d` that `items` fill, from the first up to the
/// last one given. A scalar takes the next position; a braced list fills the next whole
/// sub-array of shape `d.drop_first()`, starting at a multiple of its size.
pub open spec fn fill(fr: Seq<Frame>, d: Seq<usize>, items: Seq<Initializer>, is_const: bool) -> Result<
    Seq<i32>,
    CheckError,
>
    decreases items,
{
    if items.len() == 0 {
        Ok(Seq::empty())
    } else {
        match fill(fr, d, items.drop_last(), is_const) {
            Err(x) => Err(x),
            Ok(prev) => match items.last() {
                Initializer::Expr(e) => if prev.len() >= size(d) {
                    Err(CheckError::ShapeMismatch)
                } else {
                    match element(fr, e, is_const) {
                        Err(x) => Err(x),
                        Ok(v) => Ok(prev.push(v)),
                    }
                },
                Initializer::List(sub) => {
                    let s = size(d.drop_first());
                    if d.len() <= 1 || s == 0 {
                        Err(CheckError::ShapeMismatch)
                    } else {
                        let start = align(prev.len() as int, s);
                        if start + s > size(d) {
                            Err(CheckError::ShapeMismatch)
                        } else {
                            match fill(fr, d.drop_first(), sub@, is_const) {
                                Err(x) => Err(x),
                                Ok(inner) => Ok(
                                    prev + zeros((start - prev.len()) as nat) + inner + zeros(
                                        (s - inner.len()) as nat,
                                    ),
                                ),
                            }
                        }
                    }
                },
            },
        }
    }
}


/// An error among the first `i` lengths is the error of them all.
proof fn lemma_dims_prefix_err(fr: Seq<Frame>, es: Seq<Expr>, i: int)
    requires
        0 <= i <= es.len(),
        dims_of(fr, es.take(i)) is Err,
    ensures
        dims_of(fr, es) == dims_of(fr, es.take(i)),
    decreases es.len(),
{
    if i == es.len() {
        assert(es.take(i) =~= es);
    } else {
        assert(es.drop_last().take(i) =~= es.take(i));
        lemma_dims_prefix_err(fr, es.drop_last(), i);
    }
}

/// An error among the first `i` initializers is the error of them all.
pub proof fn lemma_fill_prefix_err(
    fr: Seq<Frame>,
    d: Seq<usize>,
    items: Seq<Initializer>,
    is_const: bool,
    i: int,
)
    requires
        0 <= i <= items.len(),
        fill(fr, d, items.take(i), is_const) is Err,
    ensures
        fill(fr, d, items, is_const) == fill(fr, d, items.take(i), is_const),
    decreases items.len(),
{
    if i == items.len() {
        assert(items.take(i) =~= items);
    } else {
        assert(items.drop_last().take(i) =~= items.take(i));
        lemma_fill_prefix_err(fr, d, items.drop_last(), is_const, i);
    }
}

/// A shape whose trailing parts all fit has a first trailing part that fits.
pub proof fn lemma_fits_tail(d: Seq<usize>)
    requires
        fits(d),
        d.len() > 0,
    ensures
        fits(d.drop_first()),
{
    assert forall|i: int| 0 <= i <= d.drop_first().len() implies #[trigger] size(
        d.drop_first().subrange(i, d.drop_first().len() as int),
    ) <= usize::MAX by {
        assert(d.drop_first().subrange(i, d.drop_first().len() as int) =~= d.subrange(
            i + 1,
            d.len() as int,
        ));
    }
}

/// The element count of shape `d`, when every trailing part of it fits in `usize`.
pub fn shape_size(d: &Vec<usize>) -> (r: Option<usize>)
    ensures
        r is Some <==> fits(d@),
        r is Some ==> r->0 == size(d@),
{
    let mut acc: usize = 1;
    let mut i: usize = d.len();
    assert(d@.subrange(i as int, i as int) =~= Seq::<usize>::empty());
    while i > 0
        invariant
            i <= d@.len(),
            acc as int == size(d@.subrange(i as int, d@.len() as int)),
            forall|j: int|
                i <= j <= d@.len() ==> #[trigger] size(d@.subrange(j, d@.len() as int))
                    <= usize::MAX,
        decreases i,
    {
        let ghost tail = d@.subrange(i - 1, d@.len() as int);
        assert(tail.drop_first() =~= d@.subrange(i as int, d@.len() as int));
        match d[i - 1].checked_mul(acc) {
            None => {
                assert(size(tail) > usize::MAX);
                return None;
            },
            Some(p) => {
                acc = p;
            },
        }
        i = i - 1;
    }
    assert(d@.subrange(0, d@.len() as int) =~= d@);
    Some(acc)
}

/// The declared lengths `es` under the scopes of `table`.
pub fn eval_dims(es: &Vec<Expr>, table: &SymbolTable) -> (r: Result<Vec<usize>, CheckError>)
    ensures
        match r {
            Ok(d) => dims_of(table@, es@) == Ok::<Seq<usize>, CheckError>(d@),
            Err(x) => dims_of(table@, es@) == Err::<Seq<usize>, CheckError>(x),
        },
{
    let mut d: Vec<usize> = Vec::new();
    let mut i: usize = 0;
    assert(es@.take(0) =~= Seq::<Expr>::empty());
    while i < es.len()
        invariant
            i <= es@.len(),
            dims_of(table@, es@.take(i as int)) == Ok::<Seq<usize>, CheckError>(d@),
        decreases es@.len() - i,
    {
        assert(es@.take(i + 1).drop_last() =~= es@.take(i as int));
        assert(es@.take(i + 1).last() == es@[i as int]);
        match es[i].const_eval(table) {
            Err(x) => {
                proof {
                    lemma_dims_prefix_err(table@, es@, i + 1);
                }
                return Err(x);
            },
            Ok(v) => {
                if v < 0 {
                    proof {
                        lemma_dims_prefix_err(table@, es@, i + 1);
                    }
                    return Err(CheckError::NotConstant);
                }
                d.push(v as usize);
            },
        }
        i = i + 1;
    }
    assert(es@.take(i as int) =~= es@);
    Ok(d)
}

/// Appends `n` zeros.
pub fn push_zeros(v: &mut Vec<i32>, n: usize)
    ensures
        final(v)@ == old(v)@ + zeros(n as nat),
{
    let ghost start = v@;
    let mut k: usize = 0;
    while k < n
        invariant
            k <= n,
            v@ == start + zeros(k as nat),
        decreases n - k,
    {
        v.push(0);
        k = k + 1;
        assert(v@ =~= start + zeros(k as nat));
    }
}

} // verus!
