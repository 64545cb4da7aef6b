//! Type inference and compile-time evaluation of expressions.
use vstd::prelude::*;
use crate::ast::{BinaryOp, CheckError, Expr, Type, TypeView, UnaryOp, types_view};
use crate::table::{Frame, Scope, SymbolTable, SymbolTableItem, SymbolView, lookup};

verus! {

/// The type of a name of symbol `s` applied to `k` indices.
pub open spec fn lval_type(s: SymbolView, k: nat) -> Result<TypeView, CheckError> {
    match s {
        SymbolView::ConstVariable(_) | SymbolView::Variable => {
            if k == 0 {
                Ok(TypeView::Int)
            } else {
                Err(CheckError::TypeMismatch)
            }
        },
        SymbolView::ConstArray(d, _) | SymbolView::Array(d) => {
            if k == d.len() {
                Ok(TypeView::Int)
            } else if k < d.len() {
                Ok(TypeView::Pointer(d.subrange((k + 1) as int, d.len() as int)))
            } else {
                Err(CheckError::TypeMismatch)
            }
        },
        SymbolView::Pointer(d) => {
            if k == d.len() + 1 {
                Ok(TypeView::Int)
            } else if k <= d.len() {
                Ok(TypeView::Pointer(d.subrange(k as int, d.len() as int)))
            } else {
                Err(CheckError::TypeMismatch)
            }
        },
        SymbolView::Function(_, _) => Err(CheckError::TypeMismatch),
    }
}

pub open spec fn all_int(ts: Seq<TypeView>) -> bool {
    forall|i: int| 0 <= i < ts.len() ==> ts[i] == TypeView::Int
}

/// The type of `e` under the scopes `fr`, or the first rule it breaks.
pub open spec fn type_of(fr: Seq<Frame>, e: Expr) -> Result<TypeView, CheckError>
    decreases e,
{
    match e {
        Expr::Num(_) => Ok(TypeView::Int),
        Expr::LVal(n, idx) => match lookup(fr, n@) {
            None => Err(CheckError::UndefinedIdentifier),
            Some(s) => match types_of(fr, idx@) {
                Err(x) => Err(x),
                Ok(ts) => if all_int(ts) {
                    lval_type(s, idx@.len())
                } else {
                    Err(CheckError::TypeMismatch)
                },
            },
        },
        Expr::Unary(_, a) => match type_of(fr, *a) {
            Err(x) => Err(x),
            Ok(TypeView::Int) => Ok(TypeView::Int),
            Ok(_) => Err(CheckError::TypeMismatch),
        },
        Expr::Binary(_, a, b) => match type_of(fr, *a) {
            Err(x) => Err(x),
            Ok(TypeView::Int) => match type_of(fr, *b) {
                Err(x) => Err(x),
                Ok(TypeView::Int) => Ok(TypeView::Int),
                Ok(_) => Err(CheckError::TypeMismatch),
            },
            Ok(_) => Err(CheckError::TypeMismatch),
        },
        Expr::Call(n, args) => match lookup(fr, n@) {
            None => Err(CheckError::UndefinedIdentifier),
            Some(SymbolView::Function(r, ps)) => match types_of(fr, args@) {
                Err(x) => Err(x),
                Ok(ts) => if ts == ps {
                    Ok(r)
                } else {
                    Err(CheckError::TypeMismatch)
                },
            },
            Some(_) => Err(CheckError::TypeMismatch),
        },
    }
}

/// The types of `es`, left to right, or the first rule one of them breaks.
pub open spec fn types_of(fr: Seq<Frame>, es: Seq<Expr>) -> Result<Seq<TypeView>, CheckError>
    decreases es,
{
    if es.len() == 0 {
        Ok(Seq::empty())
    } else {
        match types_of(fr, es.drop_last()) {
            Err(x) => Err(x),
            Ok(ts) => match type_of(fr, es.last()) {
                Err(x) => Err(x),
                Ok(t) => Ok(ts.push(t)),
            },
        }
    }
}

/// `x` as a value of the language, if it fits in 32 bits.
pub open spec fn fit(x: int) -> Option<i32> {
    if i32::MIN <= x <= i32::MAX {
        Some(x as i32)
    } else {
        None
    }
}

pub open spec fn abs(x: int) -> int {
    if x < 0 {
        -x
    } else {
        x
    }
}

/// Division rounding toward zero.
pub open spec fn quot(a: int, b: int) -> int {
    if (a < 0) == (b < 0) {
        abs(a) / abs(b)
    } else {
        -(abs(a) / abs(b))
    }
}

/// The remainder of [`quot`]: it takes the sign of the dividend.
pub open spec fn rem(a: int, b: int) -> int {
    if a < 0 {
        -(abs(a) % abs(b))
    } else {
        abs(a) % abs(b)
    }
}

pub open spec fn truth(c: bool) -> i32 {
    if c {
        1
    } else {
        0
    }
}

pub open spec fn unary_value(op: UnaryOp, v: i32) -> Option<i32> {
    match op {
        UnaryOp::Plus => Some(v),
        UnaryOp::Neg => fit(-v),
        UnaryOp::Not => Some(truth(v == 0)),
    }
}

/// The value of `a op b`; `None` on division by zero or a result out of range.
pub open spec fn binary_value(op: BinaryOp, a: i32, b: i32) -> Option<i32> {
    match op {
        BinaryOp::Add => fit(a + b),
        BinaryOp::Sub => fit(a - b),
        BinaryOp::Mul => fit(a * b),
        BinaryOp::Div => if b == 0 {
            None
        } else {
            fit(quot(a as int, b as int))
        },
        BinaryOp::Mod => if b == 0 {
            None
        } else {
            fit(rem(a as int, b as int))
        },
        BinaryOp::Lt => Some(truth(a < b)),
        BinaryOp::Gt => Some(truth(a > b)),
        BinaryOp::Le => Some(truth(a <= b)),
        BinaryOp::Ge => Some(truth(a >= b)),
        BinaryOp::Eq => Some(truth(a == b)),
        BinaryOp::Ne => Some(truth(a != b)),
        BinaryOp::And => Some(truth(a != 0 && b != 0)),
        BinaryOp::Or => Some(truth(a != 0 || b != 0)),
    }
}

/// The compile-time value of `e` under the scopes `fr`, or why it has none.
pub open spec fn value_of(fr: Seq<Frame>, e: Expr) -> Result<i32, CheckError>
    decreases e,
{
    match e {
        Expr::Num(n) => Ok(n),
        Expr::LVal(n, idx) => match lookup(fr, n@) {
            None => Err(CheckError::UndefinedIdentifier),
            Some(SymbolView::ConstVariable(v)) => if idx@.len() == 0 {
                Ok(v)
            } else {
                Err(CheckError::NotConstant)
            },
            Some(SymbolView::ConstArray(d, vals)) => if idx@.len() != d.len() {
                Err(CheckError::NotConstant)
            } else {
                match values_of(fr, idx@) {
                    Err(x) => Err(x),
                    Ok(vs) => if in_bounds(d, vs) && flat_index(d, vs, d.len() as int) < vals.len() {
                        Ok(vals[flat_index(d, vs, d.len() as int)])
                    } else {
                        Err(CheckError::NotConstant)
                    },
                }
            },
            Some(_) => Err(CheckError::NotConstant),
        },
        Expr::Unary(op, a) => match value_of(fr, *a) {
            Err(x) => Err(x),
            Ok(v) => match unary_value(op, v) {
                Some(r) => Ok(r),
                None => Err(CheckError::NotConstant),
            },
        },
        Expr::Binary(op, a, b) => match value_of(fr, *a) {
            Err(x) => Err(x),
            Ok(u) => match value_of(fr, *b) {
                Err(x) => Err(x),
                Ok(v) => match binary_value(op, u, v) {
                    Some(r) => Ok(r),
                    None => Err(CheckError::NotConstant),
                },
            },
        },
        Expr::Call(n, _) => match lookup(fr, n@) {
            None => Err(CheckError::UndefinedIdentifier),
            Some(_) => Err(CheckError::NotConstant),
        },
    }
}

/// The values of `es`, left to right, or the first reason one of them has none.
pub open spec fn values_of(fr: Seq<Frame>, es: Seq<Expr>) -> Result<Seq<i32>, CheckError>
    decreases es,
{
    if es.len() == 0 {
        Ok(Seq::empty())
    } else {
        match values_of(fr, es.drop_last()) {
            Err(x) => Err(x),
            Ok(vs) => match value_of(fr, es.last()) {
                Err(x) => Err(x),
                Ok(v) => Ok(vs.push(v)),
            },
        }
    }
}

/// Each index lies within its dimension.
pub open spec fn in_bounds(d: Seq<usize>, vs: Seq<i32>) -> bool {
    vs.len() == d.len() && forall|k: int| 0 <= k < d.len() ==> 0 <= #[trigger] vs[k] < d[k]
}

/// The row-major position of the element at the first `k` indices `vs` of shape `d`.
pub open spec fn flat_index(d: Seq<usize>, vs: Seq<i32>, k: int) -> int
    decreases k,
{
    if k <= 0 {
        0
    } else {
        flat_index(d, vs, k - 1) * d[k - 1] + vs[k - 1]
    }
}

/// Positions only grow as indices are added.
proof fn lemma_flat_grows(d: Seq<usize>, vs: Seq<i32>, j: int, k: int)
    requires
        in_bounds(d, vs),
        0 <= j <= k <= d.len(),
    ensures
        0 <= flat_index(d, vs, j) <= flat_index(d, vs, k),
    decreases k, j,
{
    if k > j {
        lemma_flat_grows(d, vs, j, k - 1);
        let f = flat_index(d, vs, k - 1);
        let m = d[k - 1] as int;
        assert(0 <= vs[k - 1] < d[k - 1]);
        assert(f * m >= f) by (nonlinear_arith)
            requires
                f >= 0,
                m >= 1,
        ;
    } else if k > 0 {
        lemma_flat_grows(d, vs, 0, k);
    }
}

proof fn lemma_values_prefix_err(fr: Seq<Frame>, es: Seq<Expr>, i: int)
    requires
        0 <= i <= es.len(),
        values_of(fr, es.take(i)) is Err,
    ensures
        values_of(fr, es) == values_of(fr, es.take(i)),
    decreases es.len(),
{
    if i == es.len() {
        assert(es.take(i) =~= es);
    } else {
        assert(es.drop_last().take(i) =~= es.take(i));
        lemma_values_prefix_err(fr, es.drop_last(), i);
    }
}

pub open spec fn type_result(r: Result<Type, CheckError>) -> Result<TypeView, CheckError> {
    match r {
        Ok(t) => Ok(t@),
        Err(x) => Err(x),
    }
}

/// An error among the first `i` expressions is the error of them all.
proof fn lemma_types_prefix_err(fr: Seq<Frame>, es: Seq<Expr>, i: int)
    requires
        0 <= i <= es.len(),
        types_of(fr, es.take(i)) is Err,
    ensures
        types_of(fr, es) == types_of(fr, es.take(i)),
    decreases es.len(),
{
    if i == es.len() {
        assert(es.take(i) =~= es);
    } else {
        assert(es.drop_last().take(i) =~= es.take(i));
        lemma_types_prefix_err(fr, es.drop_last(), i);
    }
}

fn unary_eval(op: UnaryOp, v: i32) -> (r: Option<i32>)
    ensures
        r == unary_value(op, v),
{
    match op {
        UnaryOp::Plus => Some(v),
        UnaryOp::Neg => if v == i32::MIN {
            None
        } else {
            Some(-v)
        },
        UnaryOp::Not => Some(if v == 0 {
            1
        } else {
            0
        }),
    }
}

fn fit_i64(x: i64) -> (r: Option<i32>)
    ensures
        r == fit(x as int),
{
    if i32::MIN as i64 <= x && x <= i32::MAX as i64 {
        Some(x as i32)
    } else {
        None
    }
}

fn binary_eval(op: BinaryOp, a: i32, b: i32) -> (r: Option<i32>)
    ensures
        r == binary_value(op, a, b),
{
    let x = a as i64;
    let y = b as i64;
    match op {
        BinaryOp::Add => fit_i64(x + y),
        BinaryOp::Sub => fit_i64(x - y),
        BinaryOp::Mul => {
            assert(-0x8000_0000_0000_0000 <= x * y <= 0x7fff_ffff_ffff_ffff) by (nonlinear_arith)
                requires
                    -0x8000_0000 <= x <= 0x7fff_ffff,
                    -0x8000_0000 <= y <= 0x7fff_ffff,
            ;
            fit_i64(x * y)
        },
        BinaryOp::Div | BinaryOp::Mod => {
            if b == 0 {
                return None;
            }
            let ux: u64 = if x < 0 {
                (-x) as u64
            } else {
                x as u64
            };
            let uy: u64 = if y < 0 {
                (-y) as u64
            } else {
                y as u64
            };
            if let BinaryOp::Div = op {
                let q = (ux / uy) as i64;
                if (x < 0) == (y < 0) {
                    fit_i64(q)
                } else {
                    fit_i64(-q)
                }
            } else {
                let m = (ux % uy) as i64;
                if x < 0 {
                    fit_i64(-m)
                } else {
                    fit_i64(m)
                }
            }
        },
        BinaryOp::Lt => Some(if a < b { 1 } else { 0 }),
        BinaryOp::Gt => Some(if a > b { 1 } else { 0 }),
        BinaryOp::Le => Some(if a <= b { 1 } else { 0 }),
        BinaryOp::Ge => Some(if a >= b { 1 } else { 0 }),
        BinaryOp::Eq => Some(if a == b { 1 } else { 0 }),
        BinaryOp::Ne => Some(if a != b { 1 } else { 0 }),
        BinaryOp::And => Some(if a != 0 && b != 0 { 1 } else { 0 }),
        BinaryOp::Or => Some(if a != 0 || b != 0 { 1 } else { 0 }),
    }
}

/// The suffix of `d` from position `k`.
pub fn dims_from(d: &Vec<usize>, k: usize) -> (r: Vec<usize>)
    requires
        k <= d@.len(),
    ensures
        r@ == d@.subrange(k as int, d@.len() as int),
{
    let mut r: Vec<usize> = Vec::new();
    let mut i = k;
    while i < d.len()
        invariant
            k <= i <= d@.len(),
            r@ == d@.subrange(k as int, i as int),
        decreases d@.len() - i,
    {
        r.push(d[i]);
        i = i + 1;
        assert(r@ =~= d@.subrange(k as int, i as int));
    }
    r
}

/// Whether two types are the same.
pub fn type_eq(a: &Type, b: &Type) -> (r: bool)
    ensures
        r == (a@ == b@),
{
    match (a, b) {
        (Type::Int, Type::Int) => true,
        (Type::Void, Type::Void) => true,
        (Type::Pointer(x), Type::Pointer(y)) => {
            assert(a@ == TypeView::Pointer(x@) && b@ == TypeView::Pointer(y@));
            if x.len() != y.len() {
                assert(x@.len() != y@.len());
                return false;
            }
            let mut i: usize = 0;
            while i < x.len()
                invariant
                    x@.len() == y@.len(),
                    i <= x@.len(),
                    forall|j: int| 0 <= j < i ==> x@[j] == y@[j],
                    a@ == TypeView::Pointer(x@),
                    b@ == TypeView::Pointer(y@),
                decreases x@.len() - i,
            {
                if x[i] != y[i] {
                    assert(x@[i as int] != y@[i as int]);
                    return false;
                }
                i = i + 1;
            }
            assert(x@ =~= y@);
            true
        },
        _ => false,
    }
}

fn lval_type_exec(s: &SymbolTableItem, k: usize) -> (r: Result<Type, CheckError>)
    ensures
        type_result(r) == lval_type(s@, k as nat),
{
    match s {
        SymbolTableItem::ConstVariable(_) | SymbolTableItem::Variable => {
            if k == 0 {
                Ok(Type::Int)
            } else {
                Err(CheckError::TypeMismatch)
            }
        },
        SymbolTableItem::ConstArray(d, _) | SymbolTableItem::Array(d) => {
            if k == d.len() {
                Ok(Type::Int)
            } else if k < d.len() {
                Ok(Type::Pointer(dims_from(d, k + 1)))
            } else {
                Err(CheckError::TypeMismatch)
            }
        },
        SymbolTableItem::Pointer(d) => {
            if k <= d.len() {
                Ok(Type::Pointer(dims_from(d, k)))
            } else if k - 1 == d.len() {
                Ok(Type::Int)
            } else {
                Err(CheckError::TypeMismatch)
            }
        },
        SymbolTableItem::Function(_, _) => Err(CheckError::TypeMismatch),
    }
}

/// The types of `es`, left to right.
pub fn exprs_types(es: &Vec<Expr>, table: &SymbolTable) -> (r: Result<Vec<Type>, CheckError>)
    ensures
        match r {
            Ok(ts) => types_of(table@, es@) == Ok::<Seq<TypeView>, CheckError>(types_view(ts@)),
            Err(x) => types_of(table@, es@) == Err::<Seq<TypeView>, CheckError>(x),
        },
    decreases es,
{
    let mut ts: Vec<Type> = Vec::new();
    let mut i: usize = 0;
    assert(es@.take(0) =~= Seq::empty());
    assert(types_view(ts@) =~= Seq::empty());
    while i < es.len()
        invariant
            i <= es@.len(),
            types_of(table@, es@.take(i as int)) == Ok::<Seq<TypeView>, CheckError>(
                types_view(ts@),
            ),
        decreases es@.len() - i,
    {
        assert(es@.take(i + 1).drop_last() =~= es@.take(i as int));
        assert(es@.take(i + 1).last() == es@[i as int]);
        let t = es[i].expr_type(table);
        match t {
            Err(x) => {
                proof { lemma_types_prefix_err(table@, es@, i + 1); }
                return Err(x);
            },
            Ok(t) => {
                let ghost old_ts = ts@;
                ts.push(t);
                assert(types_view(ts@) =~= types_view(old_ts).push(t@));
            },
        }
        i = i + 1;
    }
    assert(es@.take(i as int) =~= es@);
    Ok(ts)
}

/// The compile-time values of `es`, left to right.
pub fn exprs_values(es: &Vec<Expr>, table: &SymbolTable) -> (r: Result<Vec<i32>, CheckError>)
    ensures
        match r {
            Ok(vs) => values_of(table@, es@) == Ok::<Seq<i32>, CheckError>(vs@),
            Err(x) => values_of(table@, es@) == Err::<Seq<i32>, CheckError>(x),
        },
        r is Ok ==> r->Ok_0@.len() == es@.len(),
    decreases es,
{
    let mut vs: Vec<i32> = Vec::new();
    let mut i: usize = 0;
    assert(es@.take(0) =~= Seq::empty());
    while i < es.len()
        invariant
            i <= es@.len(),
            values_of(table@, es@.take(i as int)) == Ok::<Seq<i32>, CheckError>(vs@),
            vs@.len() == i,
        decreases es@.len() - i,
    {
        assert(es@.take(i + 1).drop_last() =~= es@.take(i as int));
        assert(es@.take(i + 1).last() == es@[i as int]);
        match es[i].const_eval(table) {
            Err(x) => {
                proof {
                    lemma_values_prefix_err(table@, es@, i + 1);
                }
                return Err(x);
            },
            Ok(v) => {
                vs.push(v);
            },
        }
        i = i + 1;
    }
    assert(es@.take(i as int) =~= es@);
    Ok(vs)
}

/// The element of `vals`, of shape `d`, at the indices `vs`; `None` when an index is out
/// of its dimension or the position is past the end of `vals`.
fn element_at(d: &Vec<usize>, vals: &Vec<i32>, vs: &Vec<i32>) -> (r: Option<i32>)
    requires
        vs@.len() == d@.len(),
    ensures
        r == (if in_bounds(d@, vs@) && flat_index(d@, vs@, d@.len() as int) < vals@.len() {
            Some(vals@[flat_index(d@, vs@, d@.len() as int)])
        } else {
            None::<i32>
        }),
{
    let mut k: usize = 0;
    while k < d.len()
        invariant
            k <= d@.len(),
            vs@.len() == d@.len(),
            forall|j: int| 0 <= j < k ==> 0 <= #[trigger] vs@[j] < d@[j],
        decreases d@.len() - k,
    {
        if vs[k] < 0 || vs[k] as usize >= d[k] {
            assert(!in_bounds(d@, vs@));
            return None;
        }
        k = k + 1;
    }
    assert(in_bounds(d@, vs@));
    let mut off: usize = 0;
    let mut k: usize = 0;
    let len = vals.len();
    while k < d.len()
        invariant
            k <= d@.len(),
            len == vals@.len(),
            in_bounds(d@, vs@),
            off as int == flat_index(d@, vs@, k as int),
        decreases d@.len() - k,
    {
        proof {
            lemma_flat_grows(d@, vs@, k + 1, d@.len() as int);
        }
        let ghost step = flat_index(d@, vs@, k + 1);
        assert(step == off * d@[k as int] + vs@[k as int]);
        assert(0 <= vs@[k as int] < d@[k as int]);
        let next = match off.checked_mul(d[k]) {
            None => {
                assert(step > usize::MAX);
                assert(flat_index(d@, vs@, d@.len() as int) >= step);
                assert(len <= usize::MAX);
                return None;
            },
            Some(m) => match m.checked_add(vs[k] as usize) {
                None => {
                    assert(step > usize::MAX);
                    assert(flat_index(d@, vs@, d@.len() as int) >= step);
                    assert(len <= usize::MAX);
                    return None;
                },
                Some(n) => n,
            },
        };
        off = next;
        k = k + 1;
    }
    if off < vals.len() {
        Some(vals[off])
    } else {
        None
    }
}

impl Expr {
    /// The type of this expression under the scopes of `table`.
    pub fn expr_type(&self, table: &SymbolTable) -> (r: Result<Type, CheckError>)
        ensures
            type_result(r) == type_of(table@, *self),
        decreases self,
    {
        match self {
            Expr::Num(_) => Ok(Type::Int),
            Expr::LVal(n, idx) => {
                let s = table.search(n.as_str());
                match s {
                    None => Err(CheckError::UndefinedIdentifier),
                    Some(s) => {
                        let ts = match exprs_types(idx, table) {
                            Ok(ts) => ts,
                            Err(x) => {
                                return Err(x);
                            },
                        };
                        let mut i: usize = 0;
                        let ghost want = if all_int(types_view(ts@)) {
                            lval_type(s@, idx@.len())
                        } else {
                            Err(CheckError::TypeMismatch)
                        };
                        assert(type_of(table@, *self) == want);
                        while i < ts.len()
                            invariant
                                i <= ts@.len(),
                                type_of(table@, *self) == want,
                                want == (if all_int(types_view(ts@)) {
                                    lval_type(s@, idx@.len())
                                } else {
                                    Err(CheckError::TypeMismatch)
                                }),
                                forall|j: int| 0 <= j < i ==> types_view(ts@)[j] == TypeView::Int,
                                lookup(table@, n@) == Some(s@),
                                types_of(table@, idx@) == Ok::<Seq<TypeView>, CheckError>(
                                    types_view(ts@),
                                ),
                            decreases ts@.len() - i,
                        {
                            match ts[i] {
                                Type::Int => {},
                                _ => {
                                    assert(types_view(ts@)[i as int] == ts@[i as int]@);
                                    assert(!all_int(types_view(ts@)));
                                    return Err(CheckError::TypeMismatch);
                                },
                            }
                            i = i + 1;
                        }
                        lval_type_exec(s, idx.len())
                    },
                }
            },
            Expr::Unary(_, a) => {
                match a.expr_type(table) {
                    Ok(Type::Int) => Ok(Type::Int),
                    Ok(_) => Err(CheckError::TypeMismatch),
                    Err(x) => Err(x),
                }
            },
            Expr::Binary(_, a, b) => {
                match a.expr_type(table) {
                    Ok(Type::Int) => {},
                    Ok(_) => {
                        return Err(CheckError::TypeMismatch);
                    },
                    Err(x) => {
                        return Err(x);
                    },
                }
                match b.expr_type(table) {
                    Ok(Type::Int) => Ok(Type::Int),
                    Ok(_) => Err(CheckError::TypeMismatch),
                    Err(x) => Err(x),
                }
            },
            Expr::Call(n, args) => {
                let s = table.search(n.as_str());
                match s {
                    None => Err(CheckError::UndefinedIdentifier),
                    Some(SymbolTableItem::Function(r, ps)) => {
                        let ts = match exprs_types(args, table) {
                            Ok(ts) => ts,
                            Err(x) => {
                                return Err(x);
                            },
                        };
                        if ts.len() != ps.len() {
                            assert(types_view(ts@).len() != types_view(ps@).len());
                            return Err(CheckError::TypeMismatch);
                        }
                        let mut i: usize = 0;
                        let ghost want = if types_view(ts@) == types_view(ps@) {
                            Ok(r@)
                        } else {
                            Err(CheckError::TypeMismatch)
                        };
                        assert(type_of(table@, *self) == want);
                        while i < ts.len()
                            invariant
                                i <= ts@.len(),
                                ts@.len() == ps@.len(),
                                type_of(table@, *self) == want,
                                want == (if types_view(ts@) == types_view(ps@) {
                                    Ok(r@)
                                } else {
                                    Err(CheckError::TypeMismatch)
                                }),
                                forall|j: int|
                                    0 <= j < i ==> types_view(ts@)[j] == types_view(ps@)[j],
                                lookup(table@, n@) == Some(
                                    SymbolView::Function(r@, types_view(ps@)),
                                ),
                                types_of(table@, args@) == Ok::<Seq<TypeView>, CheckError>(
                                    types_view(ts@),
                                ),
                            decreases ts@.len() - i,
                        {
                            if !type_eq(&ts[i], &ps[i]) {
                                assert(types_view(ts@)[i as int] != types_view(ps@)[i as int]);
                                return Err(CheckError::TypeMismatch);
                            }
                            i = i + 1;
                        }
                        assert(types_view(ts@) =~= types_view(ps@));
                        match r {
                            Type::Int => Ok(Type::Int),
                            Type::Void => Ok(Type::Void),
                            Type::Pointer(d) => {
                                assert(d@.subrange(0, d@.len() as int) =~= d@);
                                Ok(Type::Pointer(dims_from(d, 0)))
                            },
                        }
                    },
                    Some(_) => Err(CheckError::TypeMismatch),
                }
            },
        }
    }

    /// The compile-time value of this expression under the scopes of `table`.
    pub fn const_eval(&self, table: &SymbolTable) -> (r: Result<i32, CheckError>)
        ensures
            r == value_of(table@, *self),
        decreases self,
    {
        match self {
            Expr::Num(n) => Ok(*n),
            Expr::LVal(n, idx) => {
                match table.search(n.as_str()) {
                    None => Err(CheckError::UndefinedIdentifier),
                    Some(SymbolTableItem::ConstVariable(v)) => {
                        if idx.len() == 0 {
                            Ok(*v)
                        } else {
                            Err(CheckError::NotConstant)
                        }
                    },
                    Some(SymbolTableItem::ConstArray(d, vals)) => {
                        if idx.len() != d.len() {
                            return Err(CheckError::NotConstant);
                        }
                        let vs = match exprs_values(idx, table) {
                            Ok(vs) => vs,
                            Err(x) => {
                                return Err(x);
                            },
                        };
                        match element_at(d, vals, &vs) {
                            Some(v) => Ok(v),
                            None => Err(CheckError::NotConstant),
                        }
                    },
                    Some(_) => Err(CheckError::NotConstant),
                }
            },
            Expr::Unary(op, a) => {
                let v = match a.const_eval(table) {
                    Ok(v) => v,
                    Err(x) => {
                        return Err(x);
                    },
                };
                match unary_eval(*op, v) {
                    Some(r) => Ok(r),
                    None => Err(CheckError::NotConstant),
                }
            },
            Expr::Binary(op, a, b) => {
                let u = match a.const_eval(table) {
                    Ok(u) => u,
                    Err(x) => {
                        return Err(x);
                    },
                };
                let v = match b.const_eval(table) {
                    Ok(v) => v,
                    Err(x) => {
                        return Err(x);
                    },
                };
                match binary_eval(*op, u, v) {
                    Some(r) => Ok(r),
                    None => Err(CheckError::NotConstant),
                }
            },
            Expr::Call(n, _) => {
                match table.search(n.as_str()) {
                    None => Err(CheckError::UndefinedIdentifier),
                    Some(_) => Err(CheckError::NotConstant),
                }
            },
        }
    }
}

} // verus!
