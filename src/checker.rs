//! The definition processor, the block walker and the top-level driver.
use vstd::prelude::*;
use crate::ast::{
    Block, BlockItem, CheckError, Definition, GlobalItem, Initializer, Parameter, Statement,
    TranslationUnit, Type, TypeView, types_view,
};
use crate::expr::{type_of, dims_from};
use crate::shape::{
    dims_of, element, eval_dims, fill, fits, lemma_fill_prefix_err, lemma_fits_tail, push_zeros,
    shape_size, size, zeros, align,
};
use crate::table::{Frame, Scope, SymbolTable, SymbolTableItem, SymbolView, insert_spec, intrinsics};

verus! {

pub open spec fn unit_of(r: Result<Seq<Frame>, CheckError>) -> Result<(), CheckError> {
    match r {
        Ok(_) => Ok(()),
        Err(x) => Err(x),
    }
}

/// The scopes after `def` is processed under `fr`, or the first rule it breaks.
#[verifier::opaque]
pub open spec fn define(fr: Seq<Frame>, def: Definition) -> Result<Seq<Frame>, CheckError> {
    match def {
        Definition::ConstVariableDefinition(n, e) => match crate::expr::value_of(fr, e) {
            Err(x) => Err(x),
            Ok(v) => insert_spec(fr, n@, SymbolView::ConstVariable(v)),
        },
        Definition::VariableDefinition(n, init) => match init {
            None => insert_spec(fr, n@, SymbolView::Variable),
            Some(e) => match type_of(fr, e) {
                Err(x) => Err(x),
                Ok(TypeView::Int) => insert_spec(fr, n@, SymbolView::Variable),
                Ok(_) => Err(CheckError::TypeMismatch),
            },
        },
        Definition::ConstArrayDefinition { identifier, lengths, init_list } => match dims_of(
            fr,
            lengths@,
        ) {
            Err(x) => Err(x),
            Ok(d) => if !fits(d) {
                Err(CheckError::ShapeMismatch)
            } else {
                match fill(fr, d, init_list@, true) {
                    Err(x) => Err(x),
                    Ok(v) => insert_spec(
                        fr,
                        identifier@,
                        SymbolView::ConstArray(d, v + zeros((size(d) - v.len()) as nat)),
                    ),
                }
            },
        },
        Definition::ArrayDefinition { identifier, lengths, init_list } => match dims_of(
            fr,
            lengths@,
        ) {
            Err(x) => Err(x),
            Ok(d) => if !fits(d) {
                Err(CheckError::ShapeMismatch)
            } else {
                match init_list {
                    None => insert_spec(fr, identifier@, SymbolView::Array(d)),
                    Some(l) => match fill(fr, d, l@, false) {
                        Err(x) => Err(x),
                        Ok(_) => insert_spec(fr, identifier@, SymbolView::Array(d)),
                    },
                }
            },
        },
    }
}

/// The scopes after the items of a block, opened at `fr`, are processed in order.
pub open spec fn walk_items(fr: Seq<Frame>, items: Seq<BlockItem>, rv: bool, lp: bool) -> Result<
    Seq<Frame>,
    CheckError,
>
    decreases items,
{
    if items.len() == 0 {
        Ok(fr)
    } else {
        match walk_items(fr, items.drop_last(), rv, lp) {
            Err(x) => Err(x),
            Ok(f) => walk_item(f, items.last(), rv, lp),
        }
    }
}

/// A block in a function returning `void` when `rv`, inside a loop when `lp`: it is
/// walked in a frame of its own, which is discarded afterward.
pub open spec fn walk_block(fr: Seq<Frame>, b: Block, rv: bool, lp: bool) -> Result<
    Seq<Frame>,
    CheckError,
>
    decreases b,
{
    match walk_items(fr.push(Seq::empty()), b@, rv, lp) {
        Err(x) => Err(x),
        Ok(_) => Ok(fr),
    }
}

pub open spec fn walk_item(fr: Seq<Frame>, it: BlockItem, rv: bool, lp: bool) -> Result<
    Seq<Frame>,
    CheckError,
>
    decreases it,
{
    match it {
        BlockItem::Definition(d) => define(fr, d),
        BlockItem::Block(b) => walk_block(fr, b, rv, lp),
        BlockItem::Statement(s) => walk_statement(fr, s, rv, lp),
    }
}

pub open spec fn walk_statement(fr: Seq<Frame>, s: Statement, rv: bool, lp: bool) -> Result<
    Seq<Frame>,
    CheckError,
>
    decreases s,
{
    match s {
        Statement::Expr(e) => match type_of(fr, e) {
            Err(x) => Err(x),
            Ok(_) => Ok(fr),
        },
        Statement::If { condition, then_block, else_block } => match type_of(fr, condition) {
            Err(x) => Err(x),
            Ok(TypeView::Void) => Err(CheckError::IllegalCondition),
            Ok(_) => match walk_block(fr, then_block, rv, lp) {
                Err(x) => Err(x),
                Ok(_) => walk_block(fr, else_block, rv, lp),
            },
        },
        Statement::While { condition, block } => match type_of(fr, condition) {
            Err(x) => Err(x),
            Ok(TypeView::Void) => Err(CheckError::IllegalCondition),
            Ok(_) => walk_block(fr, block, rv, true),
        },
        Statement::Return(None) => if rv {
            Ok(fr)
        } else {
            Err(CheckError::MissingReturnValue)
        },
        Statement::Return(Some(e)) => if rv {
            Err(CheckError::UnexpectedReturnValue)
        } else {
            match type_of(fr, e) {
                Err(x) => Err(x),
                Ok(TypeView::Int) => Ok(fr),
                Ok(_) => Err(CheckError::TypeMismatch),
            }
        },
        Statement::Break | Statement::Continue => if lp {
            Ok(fr)
        } else {
            Err(CheckError::IllegalJump)
        },
    }
}

/// An error among the first `i` items is the error of them all.
pub proof fn lemma_walk_prefix_err(fr: Seq<Frame>, items: Seq<BlockItem>, rv: bool, lp: bool, i: int)
    requires
        0 <= i <= items.len(),
        walk_items(fr, items.take(i), rv, lp) is Err,
    ensures
        walk_items(fr, items, rv, lp) == walk_items(fr, items.take(i), rv, lp),
    decreases items.len(),
{
    if i == items.len() {
        assert(items.take(i) =~= items);
    } else {
        assert(items.drop_last().take(i) =~= items.take(i));
        lemma_walk_prefix_err(fr, items.drop_last(), rv, lp, i);
    }
}

pub open spec fn return_type(rv: bool) -> TypeView {
    if rv {
        TypeView::Void
    } else {
        TypeView::Int
    }
}

pub open spec fn param_name(p: Parameter) -> Seq<char> {
    match p {
        Parameter::Int(n) => n@,
        Parameter::Pointer(n, _) => n@,
    }
}

/// What a parameter of type `t` binds in the function's own frame.
pub open spec fn param_symbol(t: TypeView) -> SymbolView {
    match t {
        TypeView::Pointer(d) => SymbolView::Pointer(d),
        _ => SymbolView::Variable,
    }
}

/// The parameter types of a signature; array lengths are evaluated under `fr`.
pub open spec fn param_types(fr: Seq<Frame>, ps: Seq<Parameter>) -> Result<Seq<TypeView>, CheckError>
    decreases ps.len(),
{
    if ps.len() == 0 {
        Ok(Seq::empty())
    } else {
        match param_types(fr, ps.drop_last()) {
            Err(x) => Err(x),
            Ok(ts) => match ps.last() {
                Parameter::Int(_) => Ok(ts.push(TypeView::Int)),
                Parameter::Pointer(_, lens) => match dims_of(fr, lens@) {
                    Err(x) => Err(x),
                    Ok(d) => Ok(ts.push(TypeView::Pointer(d))),
                },
            },
        }
    }
}

/// The scopes after the parameters `ps`, of types `ts`, are bound in order.
pub open spec fn bind_params(fr: Seq<Frame>, ps: Seq<Parameter>, ts: Seq<TypeView>) -> Result<
    Seq<Frame>,
    CheckError,
>
    decreases ps.len(),
{
    if ps.len() == 0 {
        Ok(fr)
    } else {
        match bind_params(fr, ps.drop_last(), ts) {
            Err(x) => Err(x),
            Ok(f) => insert_spec(f, param_name(ps.last()), param_symbol(ts[ps.len() - 1])),
        }
    }
}

/// The scopes after one global item is processed under `fr`. A function's name is bound
/// before its body is walked, in a frame for its parameters that is discarded afterward.
#[verifier::opaque]
pub open spec fn global_item(fr: Seq<Frame>, g: GlobalItem) -> Result<Seq<Frame>, CheckError> {
    match g {
        GlobalItem::Definition(d) => define(fr, d),
        GlobalItem::FunctionDefinition { return_void, identifier, parameter_list, block } => {
            match param_types(fr, parameter_list@) {
                Err(x) => Err(x),
                Ok(ts) => match insert_spec(
                    fr,
                    identifier@,
                    SymbolView::Function(return_type(return_void), ts),
                ) {
                    Err(x) => Err(x),
                    Ok(f1) => match bind_params(f1.push(Seq::empty()), parameter_list@, ts) {
                        Err(x) => Err(x),
                        Ok(f2) => match walk_block(f2, block, return_void, false) {
                            Err(x) => Err(x),
                            Ok(_) => Ok(f1),
                        },
                    },
                },
            }
        },
    }
}

/// The scopes after the global items are processed in source order; the first error stops it.
pub open spec fn check_items(fr: Seq<Frame>, items: Seq<GlobalItem>) -> Result<Seq<Frame>, CheckError>
    decreases items.len(),
{
    if items.len() == 0 {
        Ok(fr)
    } else {
        match check_items(fr, items.drop_last()) {
            Err(x) => Err(x),
            Ok(f) => global_item(f, items.last()),
        }
    }
}

proof fn lemma_params_prefix_err(fr: Seq<Frame>, ps: Seq<Parameter>, i: int)
    requires
        0 <= i <= ps.len(),
        param_types(fr, ps.take(i)) is Err,
    ensures
        param_types(fr, ps) == param_types(fr, ps.take(i)),
    decreases ps.len(),
{
    if i == ps.len() {
        assert(ps.take(i) =~= ps);
    } else {
        assert(ps.drop_last().take(i) =~= ps.take(i));
        lemma_params_prefix_err(fr, ps.drop_last(), i);
    }
}

proof fn lemma_bind_prefix_err(fr: Seq<Frame>, ps: Seq<Parameter>, ts: Seq<TypeView>, i: int)
    requires
        0 <= i <= ps.len(),
        bind_params(fr, ps.take(i), ts) is Err,
    ensures
        bind_params(fr, ps, ts) == bind_params(fr, ps.take(i), ts),
    decreases ps.len(),
{
    if i == ps.len() {
        assert(ps.take(i) =~= ps);
    } else {
        assert(ps.drop_last().take(i) =~= ps.take(i));
        lemma_bind_prefix_err(fr, ps.drop_last(), ts, i);
    }
}

proof fn lemma_check_prefix_err(fr: Seq<Frame>, items: Seq<GlobalItem>, i: int)
    requires
        0 <= i <= items.len(),
        check_items(fr, items.take(i)) is Err,
    ensures
        check_items(fr, items) == check_items(fr, items.take(i)),
    decreases items.len(),
{
    if i == items.len() {
        assert(items.take(i) =~= items);
    } else {
        assert(items.drop_last().take(i) =~= items.take(i));
        lemma_check_prefix_err(fr, items.drop_last(), i);
    }
}

/// A copy of a type.
fn copy_type(t: &Type) -> (r: Type)
    ensures
        r@ == t@,
{
    match t {
        Type::Int => Type::Int,
        Type::Void => Type::Void,
        Type::Pointer(d) => {
            assert(d@.subrange(0, d@.len() as int) =~= d@);
            Type::Pointer(dims_from(d, 0))
        },
    }
}

/// Checks programs against the rules of the language.
pub struct Checker {
    pub table: SymbolTable,
}

impl Checker {

    /// A checker whose outermost frame holds the built-in functions.
    pub fn new() -> (r: Self)
        ensures
            r.table@ == intrinsics(),
    {
        Checker { table: SymbolTable::new() }
    }

    /// Walks a block in a frame of its own: `return_void` tells the kind of the enclosing
    /// function, `in_while` whether the block lies inside a loop.
    fn process_block(&mut self, block: &Block, return_void: bool, in_while: bool) -> (r: Result<
        (),
        CheckError,
    >)
        ensures
            r == unit_of(walk_block(old(self).table@, *block, return_void, in_while)),
            r is Ok ==> final(self).table@ == old(self).table@,
        decreases block,
    {
        let ghost fr = self.table@;
        self.table.enter_scope();
        let mut i: usize = 0;
        assert(block@.take(0) =~= Seq::<BlockItem>::empty());
        while i < block.len()
            invariant
                i <= block@.len(),
                fr == old(self).table@,
                self.table@.len() == fr.len() + 1,
                self.table@.drop_last() == fr,
                walk_items(fr.push(Seq::empty()), block@.take(i as int), return_void, in_while)
                    == Ok::<Seq<Frame>, CheckError>(self.table@),
            decreases block@.len() - i,
        {
            let ghost f = self.table@;
            let ghost items = block@.take(i + 1);
            assert(items.drop_last() =~= block@.take(i as int));
            assert(items.last() == block@[i as int]);
            let ghost want = walk_item(f, block@[i as int], return_void, in_while);
            let r: Result<(), CheckError> = match &block[i] {
                BlockItem::Definition(d) => self.process_definition(d),
                BlockItem::Block(b) => self.process_block(b, return_void, in_while),
                BlockItem::Statement(s) => self.process_statement(s, return_void, in_while),
            };
            match r {
                Err(x) => {
                    assert(want == Err::<Seq<Frame>, CheckError>(x));
                    assert(walk_items(fr.push(Seq::empty()), items, return_void, in_while) == Err::<
                        Seq<Frame>,
                        CheckError,
                    >(x));
                    proof {
                        lemma_walk_prefix_err(fr.push(Seq::empty()), block@, return_void, in_while, i + 1);
                        assert(walk_items(fr.push(Seq::empty()), block@, return_void, in_while) == Err::<
                            Seq<Frame>,
                            CheckError,
                        >(x));
                        assert(walk_block(fr, *block, return_void, in_while) == Err::<
                            Seq<Frame>,
                            CheckError,
                        >(x));
                        assert(unit_of(walk_block(fr, *block, return_void, in_while)) == Err::<
                            (),
                            CheckError,
                        >(x));
                    }
                    return Err(x);
                },
                Ok(()) => {
                    assert(want == Ok::<Seq<Frame>, CheckError>(self.table@));
                },
            }
            i = i + 1;
        }
        assert(block@.take(i as int) =~= block@);
        self.table.exit_scope();
        Ok(())
    }

    /// Checks one statement of a block.
    fn process_statement(&mut self, s: &Statement, return_void: bool, in_while: bool) -> (r: Result<
        (),
        CheckError,
    >)
        ensures
            r == unit_of(walk_statement(old(self).table@, *s, return_void, in_while)),
            r is Ok ==> walk_statement(old(self).table@, *s, return_void, in_while) == Ok::<
                Seq<Frame>,
                CheckError,
            >(old(self).table@),
            r is Ok ==> final(self).table@ == old(self).table@,
        decreases s,
    {
        match s {
            Statement::Expr(e) => match e.expr_type(&self.table) {
                Err(x) => Err(x),
                Ok(_) => Ok(()),
            },
            Statement::If { condition, then_block, else_block } => {
                match condition.expr_type(&self.table) {
                    Err(x) => Err(x),
                    Ok(Type::Void) => Err(CheckError::IllegalCondition),
                    Ok(_) => match self.process_block(then_block, return_void, in_while) {
                        Err(x) => Err(x),
                        Ok(()) => self.process_block(else_block, return_void, in_while),
                    },
                }
            },
            Statement::While { condition, block } => {
                match condition.expr_type(&self.table) {
                    Err(x) => Err(x),
                    Ok(Type::Void) => Err(CheckError::IllegalCondition),
                    Ok(_) => self.process_block(block, return_void, true),
                }
            },
            Statement::Return(None) => if return_void {
                Ok(())
            } else {
                Err(CheckError::MissingReturnValue)
            },
            Statement::Return(Some(e)) => if return_void {
                Err(CheckError::UnexpectedReturnValue)
            } else {
                match e.expr_type(&self.table) {
                    Err(x) => Err(x),
                    Ok(Type::Int) => Ok(()),
                    Ok(_) => Err(CheckError::TypeMismatch),
                }
            },
            Statement::Break | Statement::Continue => if in_while {
                Ok(())
            } else {
                Err(CheckError::IllegalJump)
            },
        }
    }

    /// Checks a whole program: its global items in source order, stopping at the first
    /// rule that one breaks. Each check starts from a fresh table of the built-in
    /// functions, so nothing of an earlier check survives.
    pub fn check(&mut self, ast: &mut TranslationUnit) -> (r: Result<(), CheckError>)
        ensures
            r == unit_of(check_items(intrinsics(), old(ast)@)),
            r is Ok ==> final(self).table@ == check_items(intrinsics(), old(ast)@)->Ok_0,
            *final(ast) == *old(ast),
    {
        self.table = SymbolTable::new();
        let ghost fr = self.table@;
        let tree: &TranslationUnit = ast;
        let mut i: usize = 0;
        assert(tree@.take(0) =~= Seq::<GlobalItem>::empty());
        while i < tree.len()
            invariant
                i <= tree@.len(),
                fr.len() > 0,
                fr == intrinsics(),
                tree@ == old(ast)@,
                self.table@.len() == fr.len(),
                check_items(fr, tree@.take(i as int)) == Ok::<Seq<Frame>, CheckError>(self.table@),
            decreases tree@.len() - i,
        {
            let ghost f = self.table@;
            let ghost items = tree@.take(i + 1);
            assert(items.drop_last() =~= tree@.take(i as int));
            assert(items.last() == tree@[i as int]);
            let r = self.process_global(&tree[i]);
            match r {
                Err(x) => {
                    assert(global_item(f, tree@[i as int]) is Err);
                    assert(check_items(fr, items) == global_item(f, tree@[i as int]));
                    proof {
                        lemma_check_prefix_err(fr, tree@, i + 1);
                    }
                    return Err(x);
                },
                Ok(()) => {},
            }
            i = i + 1;
        }
        assert(tree@.take(i as int) =~= tree@);
        Ok(())
    }

    /// Processes one definition, binding its name in the innermost frame.
    fn process_definition(&mut self, definition: &Definition) -> (r: Result<(), CheckError>)
        requires
            old(self).table@.len() > 0,
        ensures
            r == unit_of(define(old(self).table@, *definition)),
            r is Ok ==> final(self).table@ == define(old(self).table@, *definition)->Ok_0,
            final(self).table@.len() == old(self).table@.len(),
            final(self).table@.drop_last() == old(self).table@.drop_last(),
    {
        reveal(define);
        let ghost fr = self.table@;
        let r = match definition {
            Definition::ConstVariableDefinition(n, e) => match e.const_eval(&self.table) {
                Err(x) => Err(x),
                Ok(v) => self.table.insert_definition(n.clone(), SymbolTableItem::ConstVariable(v)),
            },
            Definition::VariableDefinition(n, init) => {
                match init {
                    None => {},
                    Some(e) => match e.expr_type(&self.table) {
                        Err(x) => {
                            return Err(x);
                        },
                        Ok(Type::Int) => {},
                        Ok(_) => {
                            return Err(CheckError::TypeMismatch);
                        },
                    },
                }
                self.table.insert_definition(n.clone(), SymbolTableItem::Variable)
            },
            Definition::ConstArrayDefinition { identifier, lengths, init_list } => {
                let d = match eval_dims(lengths, &self.table) {
                    Err(x) => {
                        return Err(x);
                    },
                    Ok(d) => d,
                };
                let total = match shape_size(&d) {
                    None => {
                        return Err(CheckError::ShapeMismatch);
                    },
                    Some(t) => t,
                };
                match self.process_init_list(&d, init_list, true) {
                    Err(x) => Err(x),
                    Ok(v) => {
                        let mut v = v;
                        let ghost v0 = v@;
                        let k = total - v.len();
                        push_zeros(&mut v, k);
                        assert(v@ == v0 + zeros((size(d@) - v0.len()) as nat));
                        self.table.insert_definition(
                            identifier.clone(),
                            SymbolTableItem::ConstArray(d, v),
                        )
                    },
                }
            },
            Definition::ArrayDefinition { identifier, lengths, init_list } => {
                let d = match eval_dims(lengths, &self.table) {
                    Err(x) => {
                        return Err(x);
                    },
                    Ok(d) => d,
                };
                if shape_size(&d).is_none() {
                    return Err(CheckError::ShapeMismatch);
                }
                match init_list {
                    None => {},
                    Some(l) => match self.process_init_list(&d, l, false) {
                        Err(x) => {
                            return Err(x);
                        },
                        Ok(_) => {},
                    },
                }
                self.table.insert_definition(identifier.clone(), SymbolTableItem::Array(d))
            },
        };
        proof {
            if r is Ok {
                assert(self.table@.drop_last() =~= fr.drop_last());
                assert(r == Ok::<(), CheckError>(()));
                assert(unit_of(define(fr, *definition)) == Ok::<(), CheckError>(()));
            }
        }
        r
    }

    /// Flattens a braced initializer against the shape `d`: the values of the positions
    /// that it fills, up to the last one given.
    fn process_init_list(&self, d: &Vec<usize>, init_list: &Vec<Initializer>, is_const: bool) -> (r:
        Result<Vec<i32>, CheckError>)
        requires
            fits(d@),
        ensures
            match r {
                Ok(v) => fill(self.table@, d@, init_list@, is_const) == Ok::<
                    Seq<i32>,
                    CheckError,
                >(v@) && v@.len() <= size(d@),
                Err(x) => fill(self.table@, d@, init_list@, is_const) == Err::<
                    Seq<i32>,
                    CheckError,
                >(x),
            },
        decreases init_list,
    {
        let ghost fr = self.table@;
        let total = match shape_size(d) {
            Some(t) => t,
            None => {
                return Err(CheckError::ShapeMismatch);
            },
        };
        let mut vals: Vec<i32> = Vec::new();
        let mut i: usize = 0;
        assert(init_list@.take(0) =~= Seq::<Initializer>::empty());
        while i < init_list.len()
            invariant
                i <= init_list@.len(),
                fits(d@),
                total == size(d@),
                fill(fr, d@, init_list@.take(i as int), is_const) == Ok::<Seq<i32>, CheckError>(
                    vals@,
                ),
                vals@.len() <= total,
                fr == self.table@,
            decreases init_list@.len() - i,
        {
            let ghost items = init_list@.take(i + 1);
            assert(items.drop_last() =~= init_list@.take(i as int));
            assert(items.last() == init_list@[i as int]);
            match &init_list[i] {
                Initializer::Expr(e) => {
                    if vals.len() >= total {
                        proof {
                            lemma_fill_prefix_err(fr, d@, init_list@, is_const, i + 1);
                        }
                        return Err(CheckError::ShapeMismatch);
                    }
                    let v = if is_const {
                        e.const_eval(&self.table)
                    } else {
                        match e.expr_type(&self.table) {
                            Err(x) => Err(x),
                            Ok(Type::Int) => Ok(0),
                            Ok(_) => Err(CheckError::TypeMismatch),
                        }
                    };
                    assert(v == element(fr, *e, is_const));
                    match v {
                        Err(x) => {
                            proof {
                                lemma_fill_prefix_err(fr, d@, init_list@, is_const, i + 1);
                            }
                            return Err(x);
                        },
                        Ok(v) => {
                            vals.push(v);
                        },
                    }
                },
                Initializer::List(sub) => {
                    if d.len() <= 1 {
                        proof {
                            lemma_fill_prefix_err(fr, d@, init_list@, is_const, i + 1);
                        }
                        return Err(CheckError::ShapeMismatch);
                    }
                    let sub_d = dims_from(d, 1);
                    assert(sub_d@ =~= d@.drop_first());
                    proof {
                        lemma_fits_tail(d@);
                    }
                    let s = match shape_size(&sub_d) {
                        Some(s) => s,
                        None => {
                            return Err(CheckError::ShapeMismatch);
                        },
                    };
                    let pos = vals.len();
                    if s == 0 {
                        proof {
                            lemma_fill_prefix_err(fr, d@, init_list@, is_const, i + 1);
                        }
                        return Err(CheckError::ShapeMismatch);
                    }
                    let rem = pos % s;
                    let pad = if rem == 0 {
                        0
                    } else {
                        s - rem
                    };
                    assert(align(pos as int, s as int) == pos + pad);
                    if pad > total - pos || s > total - (pos + pad) {
                        proof {
                            lemma_fill_prefix_err(fr, d@, init_list@, is_const, i + 1);
                        }
                        return Err(CheckError::ShapeMismatch);
                    }
                    match self.process_init_list(&sub_d, sub, is_const) {
                        Err(x) => {
                            proof {
                                lemma_fill_prefix_err(fr, d@, init_list@, is_const, i + 1);
                            }
                            return Err(x);
                        },
                        Ok(inner) => {
                            let ghost before = vals@;
                            push_zeros(&mut vals, pad);
                            let mut j: usize = 0;
                            let ghost mid = vals@;
                            while j < inner.len()
                                invariant
                                    j <= inner@.len(),
                                    vals@ == mid + inner@.take(j as int),
                                decreases inner@.len() - j,
                            {
                                vals.push(inner[j]);
                                j = j + 1;
                                assert(vals@ =~= mid + inner@.take(j as int));
                            }
                            assert(inner@.take(j as int) =~= inner@);
                            push_zeros(&mut vals, s - inner.len());
                            assert(vals@ =~= before + zeros(pad as nat) + inner@ + zeros(
                                (s - inner@.len()) as nat,
                            ));
                        },
                    }
                },
            }
            i = i + 1;
        }
        assert(init_list@.take(i as int) =~= init_list@);
        Ok(vals)
    }

    /// The parameter types of a signature, under the current scopes.
    fn param_signature(&self, ps: &Vec<Parameter>) -> (r: Result<Vec<Type>, CheckError>)
        ensures
            match r {
                Ok(sig) => param_types(self.table@, ps@) == Ok::<Seq<TypeView>, CheckError>(
                    types_view(sig@),
                ),
                Err(x) => param_types(self.table@, ps@) == Err::<Seq<TypeView>, CheckError>(x),
            },
            r is Ok ==> r->Ok_0@.len() == ps@.len(),
    {
        let ghost fr = self.table@;
        let mut sig: Vec<Type> = Vec::new();
        let mut i: usize = 0;
        assert(ps@.take(0) =~= Seq::<Parameter>::empty());
        assert(types_view(sig@) =~= Seq::empty());
        while i < ps.len()
            invariant
                i <= ps@.len(),
                fr == self.table@,
                sig@.len() == i,
                param_types(fr, ps@.take(i as int)) == Ok::<Seq<TypeView>, CheckError>(
                    types_view(sig@),
                ),
            decreases ps@.len() - i,
        {
            assert(ps@.take(i + 1).drop_last() =~= ps@.take(i as int));
            assert(ps@.take(i + 1).last() == ps@[i as int]);
            let ghost old_sig = sig@;
            match &ps[i] {
                Parameter::Int(_) => {
                    sig.push(Type::Int);
                },
                Parameter::Pointer(_, lens) => match eval_dims(lens, &self.table) {
                    Err(x) => {
                        proof {
                            lemma_params_prefix_err(fr, ps@, i + 1);
                        }
                        return Err(x);
                    },
                    Ok(d) => {
                        sig.push(Type::Pointer(d));
                    },
                },
            }
            assert(types_view(sig@) =~= types_view(old_sig).push(sig@.last()@));
            i = i + 1;
        }
        assert(ps@.take(i as int) =~= ps@);
        Ok(sig)
    }

    /// Binds the parameters `ps`, of types `sig`, in the innermost frame.
    fn bind_parameters(&mut self, ps: &Vec<Parameter>, sig: &Vec<Type>) -> (r: Result<
        (),
        CheckError,
    >)
        requires
            old(self).table@.len() > 0,
            ps@.len() == sig@.len(),
        ensures
            r == unit_of(bind_params(old(self).table@, ps@, types_view(sig@))),
            r is Ok ==> final(self).table@ == bind_params(old(self).table@, ps@, types_view(sig@))->Ok_0,
            r is Ok ==> final(self).table@.len() == old(self).table@.len(),
            r is Ok ==> final(self).table@.drop_last() == old(self).table@.drop_last(),
    {
        let ghost fr = self.table@;
        let ghost ts = types_view(sig@);
        let mut i: usize = 0;
        assert(ps@.take(0) =~= Seq::<Parameter>::empty());
        while i < ps.len()
            invariant
                i <= ps@.len(),
                ps@.len() == sig@.len(),
                fr.len() > 0,
                fr == old(self).table@,
                ts == types_view(sig@),
                self.table@.len() == fr.len(),
                self.table@.drop_last() == fr.drop_last(),
                bind_params(fr, ps@.take(i as int), ts) == Ok::<Seq<Frame>, CheckError>(
                    self.table@,
                ),
            decreases ps@.len() - i,
        {
            assert(ps@.take(i + 1).drop_last() =~= ps@.take(i as int));
            assert(ps@.take(i + 1).last() == ps@[i as int]);
            let name = match &ps[i] {
                Parameter::Int(n) => n.clone(),
                Parameter::Pointer(n, _) => n.clone(),
            };
            let sym = match &sig[i] {
                Type::Pointer(d) => {
                    assert(d@.subrange(0, d@.len() as int) =~= d@);
                    SymbolTableItem::Pointer(dims_from(d, 0))
                },
                _ => SymbolTableItem::Variable,
            };
            assert(sym@ == param_symbol(ts[i as int]));
            let ghost before = self.table@;
            assert(param_name(ps@[i as int]) == name@);
            let ghost step = insert_spec(before, name@, sym@);
            assert(bind_params(fr, ps@.take(i + 1), ts) == step);
            match self.table.insert_definition(name, sym) {
                Err(x) => {
                    assert(step == Err::<Seq<Frame>, CheckError>(x));
                    proof {
                        lemma_bind_prefix_err(fr, ps@, ts, i + 1);
                    }
                    return Err(x);
                },
                Ok(()) => {},
            }
            assert(self.table@.drop_last() =~= before.drop_last());
            i = i + 1;
        }
        assert(ps@.take(i as int) =~= ps@);
        Ok(())
    }

    /// Processes one global item: a definition, or a function whose signature is bound
    /// before its body is walked.
    fn process_global(&mut self, item: &GlobalItem) -> (r: Result<(), CheckError>)
        requires
            old(self).table@.len() > 0,
        ensures
            r == unit_of(global_item(old(self).table@, *item)),
            r is Ok ==> final(self).table@ == global_item(old(self).table@, *item)->Ok_0,
            r is Ok ==> final(self).table@.len() == old(self).table@.len(),
    {
        reveal(global_item);
        let ghost fr = self.table@;
        match item {
            GlobalItem::Definition(d) => self.process_definition(d),
            GlobalItem::FunctionDefinition { return_void, identifier, parameter_list, block } => {
                let sig = match self.param_signature(parameter_list) {
                    Err(x) => {
                        return Err(x);
                    },
                    Ok(sig) => sig,
                };
                let ghost ts = types_view(sig@);
                let mut kept: Vec<Type> = Vec::new();
                let mut k: usize = 0;
                while k < sig.len()
                    invariant
                        k <= sig@.len(),
                        kept@.len() == k,
                        forall|j: int| 0 <= j < k ==> kept@[j]@ == sig@[j]@,
                    decreases sig@.len() - k,
                {
                    kept.push(copy_type(&sig[k]));
                    k = k + 1;
                }
                assert(types_view(kept@) =~= ts);
                let ret = if *return_void {
                    Type::Void
                } else {
                    Type::Int
                };
                match self.table.insert_definition(
                    identifier.clone(),
                    SymbolTableItem::Function(ret, sig),
                ) {
                    Err(x) => {
                        return Err(x);
                    },
                    Ok(()) => {},
                }
                let ghost f1 = self.table@;
                self.table.enter_scope();
                match self.bind_parameters(parameter_list, &kept) {
                    Err(x) => {
                        return Err(x);
                    },
                    Ok(()) => {},
                }
                let ghost f2 = self.table@;
                assert(f2.drop_last() == f1);
                match self.process_block(block, *return_void, false) {
                    Err(x) => {
                        return Err(x);
                    },
                    Ok(()) => {},
                }
                self.table.exit_scope();
                Ok(())
            },
        }
    }
}

} // verus!
