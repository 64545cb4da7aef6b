//! Facts about the rules that the checker enforces, proved over its spec functions.
use vstd::prelude::*;
use crate::ast::{BlockItem, Block, CheckError, Definition, Expr, Parameter, Statement, TranslationUnit, TypeView};
use crate::checker::{
    bind_params, check_items, define, param_name, param_types, return_type,
    walk_block, walk_item, walk_items, walk_statement,
};
use crate::expr::{type_of, value_of};
use crate::shape::dims_of;
use crate::table::{Frame, SymbolView, frame_find, insert_spec, intrinsics, lookup};

verus! {

/// A name bound in the innermost frame cannot be bound there a second time.
pub proof fn lemma_duplicate_in_frame(fr: Seq<Frame>, n: Seq<char>, s1: SymbolView, s2: SymbolView)
    requires
        fr.len() > 0,
        insert_spec(fr, n, s1) is Ok,
    ensures
        insert_spec(insert_spec(fr, n, s1)->Ok_0, n, s2) == Err::<Seq<Frame>, CheckError>(
            CheckError::DuplicateDefinition,
        ),
{
    let f = insert_spec(fr, n, s1)->Ok_0;
    assert(f.last() == fr.last().push((n, s1)));
    assert(f.last().drop_last() =~= fr.last());
}

pub open spec fn def_name(d: Definition) -> Seq<char> {
    match d {
        Definition::ConstVariableDefinition(n, _) => n@,
        Definition::VariableDefinition(n, _) => n@,
        Definition::ConstArrayDefinition { identifier, .. } => identifier@,
        Definition::ArrayDefinition { identifier, .. } => identifier@,
    }
}

/// A definition leaves its name bound in the innermost frame.
proof fn lemma_define_binds(fr: Seq<Frame>, d: Definition)
    requires
        fr.len() > 0,
        define(fr, d) is Ok,
    ensures
        define(fr, d)->Ok_0.len() == fr.len(),
        frame_find(define(fr, d)->Ok_0.last(), def_name(d)) is Some,
{
    reveal(define);
    let f = define(fr, d)->Ok_0;
    assert(f.last().drop_last() =~= fr.last());
}

/// A definition of a name that the innermost frame binds already fails.
proof fn lemma_define_refused(fr: Seq<Frame>, d: Definition)
    requires
        frame_find(fr.last(), def_name(d)) is Some,
    ensures
        define(fr, d) is Err,
{
    reveal(define);
}

/// A definition keeps the names that the innermost frame binds, and the number of frames.
proof fn lemma_define_keeps(fr: Seq<Frame>, d: Definition, n: Seq<char>)
    requires
        fr.len() > 0,
        define(fr, d) is Ok,
        frame_find(fr.last(), n) is Some,
    ensures
        define(fr, d)->Ok_0.len() == fr.len(),
        frame_find(define(fr, d)->Ok_0.last(), n) is Some,
{
    reveal(define);
    let h = define(fr, d)->Ok_0;
    assert(h.last().drop_last() =~= fr.last());
}

/// A second definition of a name in the frame that already binds it fails.
pub proof fn lemma_define_twice(fr: Seq<Frame>, d1: Definition, d2: Definition)
    requires
        fr.len() > 0,
        define(fr, d1) is Ok,
        def_name(d1) == def_name(d2),
    ensures
        define(define(fr, d1)->Ok_0, d2) is Err,
{
    lemma_define_binds(fr, d1);
    lemma_define_refused(define(fr, d1)->Ok_0, d2);
}

/// A statement that is accepted leaves the scopes as they were.
proof fn lemma_statement_same(fr: Seq<Frame>, s: Statement, rv: bool, lp: bool)
    requires
        walk_statement(fr, s, rv, lp) is Ok,
    ensures
        walk_statement(fr, s, rv, lp) == Ok::<Seq<Frame>, CheckError>(fr),
{
    match s {
        Statement::If { condition, then_block, else_block } => {
            assert(walk_block(fr, else_block, rv, lp) is Ok ==> walk_block(fr, else_block, rv, lp)
                == Ok::<Seq<Frame>, CheckError>(fr));
        },
        Statement::While { condition, block } => {
            assert(walk_block(fr, block, rv, true) is Ok ==> walk_block(fr, block, rv, true)
                == Ok::<Seq<Frame>, CheckError>(fr));
        },
        _ => {},
    }
}

/// One item of a block keeps the names that the block's frame binds: a nested block or a
/// statement leaves the scopes as they were.
proof fn lemma_item_keeps(fr: Seq<Frame>, it: BlockItem, rv: bool, lp: bool, n: Seq<char>)
    requires
        fr.len() > 0,
        walk_item(fr, it, rv, lp) is Ok,
        frame_find(fr.last(), n) is Some,
    ensures
        walk_item(fr, it, rv, lp)->Ok_0.len() == fr.len(),
        frame_find(walk_item(fr, it, rv, lp)->Ok_0.last(), n) is Some,
{
    match it {
        BlockItem::Definition(d) => {
            lemma_define_keeps(fr, d, n);
        },
        BlockItem::Block(b) => {},
        BlockItem::Statement(s) => {
            lemma_statement_same(fr, s, rv, lp);
        },
    }
}

/// Once the first `k` items of a block bind a name in its frame, so do the first `m`.
proof fn lemma_prefix_keeps(
    g: Seq<Frame>,
    items: Seq<BlockItem>,
    rv: bool,
    lp: bool,
    k: int,
    m: int,
    n: Seq<char>,
)
    requires
        g.len() > 0,
        0 <= k <= m <= items.len(),
        walk_items(g, items.take(m), rv, lp) is Ok,
        walk_items(g, items.take(k), rv, lp) is Ok,
        walk_items(g, items.take(k), rv, lp)->Ok_0.len() == g.len(),
        frame_find(walk_items(g, items.take(k), rv, lp)->Ok_0.last(), n) is Some,
    ensures
        walk_items(g, items.take(m), rv, lp)->Ok_0.len() == g.len(),
        frame_find(walk_items(g, items.take(m), rv, lp)->Ok_0.last(), n) is Some,
    decreases m,
{
    if m > k {
        assert(items.take(m).drop_last() =~= items.take(m - 1));
        assert(items.take(m).last() == items[m - 1]);
        lemma_prefix_keeps(g, items, rv, lp, k, m - 1, n);
        let h = walk_items(g, items.take(m - 1), rv, lp)->Ok_0;
        lemma_item_keeps(h, items[m - 1], rv, lp, n);
    }
}

/// The scopes before a block's items keep their number of frames.
proof fn lemma_prefix_frames(g: Seq<Frame>, items: Seq<BlockItem>, rv: bool, lp: bool, m: int)
    requires
        g.len() > 0,
        0 <= m <= items.len(),
        walk_items(g, items.take(m), rv, lp) is Ok,
    ensures
        walk_items(g, items.take(m), rv, lp)->Ok_0.len() == g.len(),
    decreases m,
{
    if m == 0 {
        assert(items.take(0) =~= Seq::<BlockItem>::empty());
        assert(walk_items(g, items.take(0), rv, lp) == Ok::<Seq<Frame>, CheckError>(g));
    } else {
        assert(items.take(m).drop_last() =~= items.take(m - 1));
        assert(items.take(m).last() == items[m - 1]);
        assert(walk_items(g, items.take(m - 1), rv, lp) is Ok);
        lemma_prefix_frames(g, items, rv, lp, m - 1);
        let h = walk_items(g, items.take(m - 1), rv, lp)->Ok_0;
        assert(walk_items(g, items.take(m), rv, lp) == walk_item(h, items[m - 1], rv, lp));
        match items[m - 1] {
            BlockItem::Definition(d) => {
                reveal(define);
                assert(define(h, d)->Ok_0.len() == h.len());
            },
            BlockItem::Block(b) => {},
            BlockItem::Statement(s) => {
                lemma_statement_same(h, s, rv, lp);
            },
        }
    }
}

/// Two definitions of one name among the items of a block fail at the second, whatever
/// nested blocks and statements stand between them; a nested block may bind the name
/// again, as it has a frame of its own.
pub proof fn lemma_redefinition_in_block(
    g: Seq<Frame>,
    items: Seq<BlockItem>,
    rv: bool,
    lp: bool,
    i: int,
    j: int,
)
    requires
        g.len() > 0,
        0 <= i < j < items.len(),
        items[i] is Definition,
        items[j] is Definition,
        def_name(items[i]->Definition_0) == def_name(items[j]->Definition_0),
        walk_items(g, items.take(j), rv, lp) is Ok,
    ensures
        walk_items(g, items.take(j + 1), rv, lp) is Err,
        walk_items(g, items, rv, lp) is Err,
{
    let n = def_name(items[i]->Definition_0);
    let tj = items.take(j);
    if walk_items(g, items.take(i + 1), rv, lp) is Err {
        assert(tj.take(i + 1) =~= items.take(i + 1));
        crate::checker::lemma_walk_prefix_err(g, tj, rv, lp, i + 1);
        assert(false);
    }
    assert(items.take(i + 1).drop_last() =~= items.take(i));
    assert(items.take(i + 1).last() == items[i]);
    assert(walk_items(g, items.take(i), rv, lp) is Ok);
    lemma_prefix_frames(g, items, rv, lp, i);
    lemma_prefix_frames(g, items, rv, lp, i + 1);
    let h0 = walk_items(g, items.take(i), rv, lp)->Ok_0;
    assert(walk_items(g, items.take(i + 1), rv, lp) == walk_item(h0, items[i], rv, lp));
    assert(walk_item(h0, items[i], rv, lp) == define(h0, items[i]->Definition_0));
    lemma_define_binds(h0, items[i]->Definition_0);
    lemma_prefix_keeps(g, items, rv, lp, i + 1, j, n);
    let hj = walk_items(g, tj, rv, lp)->Ok_0;
    assert(items.take(j + 1).drop_last() =~= tj);
    assert(items.take(j + 1).last() == items[j]);
    lemma_define_refused(hj, items[j]->Definition_0);
    assert(walk_items(g, items.take(j + 1), rv, lp) == walk_item(hj, items[j], rv, lp));
    assert(walk_item(hj, items[j], rv, lp) == define(hj, items[j]->Definition_0));
    crate::checker::lemma_walk_prefix_err(g, items, rv, lp, j + 1);
}

/// A name bound in an outer frame may be bound again in a new inner frame, which then
/// shadows it.
pub proof fn lemma_shadowing(fr: Seq<Frame>, n: Seq<char>, s: SymbolView)
    ensures
        insert_spec(fr.push(Seq::empty()), n, s) == Ok::<Seq<Frame>, CheckError>(
            fr.push(seq![(n, s)]),
        ),
        lookup(fr.push(seq![(n, s)]), n) == Some(s),
{
    let g = fr.push(Seq::<(Seq<char>, SymbolView)>::empty());
    assert(frame_find(g.last(), n) is None);
    assert(g.update(g.len() - 1, g.last().push((n, s))) =~= fr.push(seq![(n, s)]));
    assert(fr.push(seq![(n, s)]).last() == seq![(n, s)]);
}

/// A name that no frame binds is an undefined identifier, both to typing and to
/// constant evaluation.
pub proof fn lemma_undefined_name(fr: Seq<Frame>, e: Expr)
    requires
        match e {
            Expr::LVal(n, _) => lookup(fr, n@) is None,
            Expr::Call(n, _) => lookup(fr, n@) is None,
            _ => false,
        },
    ensures
        type_of(fr, e) == Err::<TypeView, CheckError>(CheckError::UndefinedIdentifier),
        value_of(fr, e) == Err::<i32, CheckError>(CheckError::UndefinedIdentifier),
{
}

/// `break` and `continue` are accepted inside a loop and refused outside one.
pub proof fn lemma_jump(fr: Seq<Frame>, s: Statement, rv: bool)
    requires
        s is Break || s is Continue,
    ensures
        walk_statement(fr, s, rv, true) == Ok::<Seq<Frame>, CheckError>(fr),
        walk_statement(fr, s, rv, false) == Err::<Seq<Frame>, CheckError>(CheckError::IllegalJump),
{
}

/// A block that starts with a `break` or `continue` fails outside a loop.
proof fn lemma_block_jump_outside(fr: Seq<Frame>, b: Block, rv: bool)
    requires
        b@.len() > 0,
        b@[0] matches BlockItem::Statement(s) && (s is Break || s is Continue),
    ensures
        walk_block(fr, b, rv, false) == Err::<Seq<Frame>, CheckError>(CheckError::IllegalJump),
{
    let g = fr.push(Seq::empty());
    assert(b@.take(1).drop_last() =~= Seq::<BlockItem>::empty());
    assert(b@.take(1).last() == b@[0]);
    assert(walk_items(g, Seq::<BlockItem>::empty(), rv, false) == Ok::<Seq<Frame>, CheckError>(g));
    assert(walk_item(g, b@[0], rv, false) == Err::<Seq<Frame>, CheckError>(CheckError::IllegalJump));
    assert(walk_items(g, b@.take(1), rv, false) == Err::<Seq<Frame>, CheckError>(
        CheckError::IllegalJump,
    ));
    crate::checker::lemma_walk_prefix_err(g, b@, rv, false, 1);
}

/// A `break` or `continue` nested only in an `if` is still outside any loop.
pub proof fn lemma_jump_in_if(fr: Seq<Frame>, condition: Expr, then_block: Block, else_block: Block, rv: bool)
    requires
        type_of(fr, condition) == Ok::<TypeView, CheckError>(TypeView::Int),
        then_block@.len() > 0,
        then_block@[0] matches BlockItem::Statement(s) && (s is Break || s is Continue),
    ensures
        walk_statement(fr, Statement::If { condition, then_block, else_block }, rv, false) == Err::<
            Seq<Frame>,
            CheckError,
        >(CheckError::IllegalJump),
{
    lemma_block_jump_outside(fr, then_block, rv);
}

/// The body of a `while` is inside a loop: a `break` there is accepted.
pub proof fn lemma_jump_in_while(fr: Seq<Frame>, condition: Expr, block: Block, rv: bool, lp: bool)
    requires
        type_of(fr, condition) == Ok::<TypeView, CheckError>(TypeView::Int),
        block@.len() == 1,
        block@[0] matches BlockItem::Statement(s) && (s is Break || s is Continue),
    ensures
        walk_statement(fr, Statement::While { condition, block }, rv, lp) == Ok::<
            Seq<Frame>,
            CheckError,
        >(fr),
{
    let g = fr.push(Seq::empty());
    assert(block@.drop_last() =~= Seq::<BlockItem>::empty());
    assert(walk_items(g, Seq::<BlockItem>::empty(), rv, true) == Ok::<Seq<Frame>, CheckError>(g));
    assert(walk_item(g, block@[0], rv, true) == Ok::<Seq<Frame>, CheckError>(g));
    assert(walk_items(g, block@, rv, true) == Ok::<Seq<Frame>, CheckError>(g));
}

/// A `return` must carry a value exactly in a function returning `int`, and that value
/// must be an `int`.
pub proof fn lemma_return_arity(fr: Seq<Frame>, e: Expr, lp: bool)
    ensures
        walk_statement(fr, Statement::Return(None), false, lp) == Err::<Seq<Frame>, CheckError>(
            CheckError::MissingReturnValue,
        ),
        walk_statement(fr, Statement::Return(Some(e)), true, lp) == Err::<Seq<Frame>, CheckError>(
            CheckError::UnexpectedReturnValue,
        ),
        walk_statement(fr, Statement::Return(None), true, lp) == Ok::<Seq<Frame>, CheckError>(fr),
        type_of(fr, e) == Ok::<TypeView, CheckError>(TypeView::Int) ==> walk_statement(
            fr,
            Statement::Return(Some(e)),
            false,
            lp,
        ) == Ok::<Seq<Frame>, CheckError>(fr),
{
}

/// A constant scalar binds its value, which later constant expressions, array lengths
/// among them, can read.
pub proof fn lemma_const_binding(fr: Seq<Frame>, n: String, e: Expr, v: i32, idx: Vec<Expr>)
    requires
        fr.len() > 0,
        value_of(fr, e) == Ok::<i32, CheckError>(v),
        frame_find(fr.last(), n@) is None,
        idx@.len() == 0,
    ensures
        define(fr, Definition::ConstVariableDefinition(n, e)) is Ok,
        lookup(define(fr, Definition::ConstVariableDefinition(n, e))->Ok_0, n@) == Some(
            SymbolView::ConstVariable(v),
        ),
        value_of(define(fr, Definition::ConstVariableDefinition(n, e))->Ok_0, Expr::LVal(n, idx))
            == Ok::<i32, CheckError>(v),
        v >= 0 ==> dims_of(
            define(fr, Definition::ConstVariableDefinition(n, e))->Ok_0,
            seq![Expr::LVal(n, idx)],
        ) == Ok::<Seq<usize>, CheckError>(seq![v as usize]),
{
    reveal(define);
    let f = define(fr, Definition::ConstVariableDefinition(n, e))->Ok_0;
    assert(f.last().drop_last() =~= fr.last());
    assert(frame_find(f.last(), n@) == Some(SymbolView::ConstVariable(v)));
    let es = seq![Expr::LVal(n, idx)];
    assert(es.drop_last() =~= Seq::<Expr>::empty());
    assert(dims_of(f, Seq::<Expr>::empty()) == Ok::<Seq<usize>, CheckError>(Seq::empty()));
    assert(es.last() == Expr::LVal(n, idx));
    assert(value_of(f, es.last()) == Ok::<i32, CheckError>(v));
    if v >= 0 {
        assert(Seq::<usize>::empty().push(v as usize) =~= seq![v as usize]);
    }
}

/// Binding parameters leaves the outer frames alone, and in the innermost frame leaves
/// the names that no parameter has as they were.
proof fn lemma_bind_keeps(g: Seq<Frame>, ps: Seq<Parameter>, ts: Seq<TypeView>, n: Seq<char>)
    requires
        g.len() > 0,
        bind_params(g, ps, ts) is Ok,
        forall|i: int| 0 <= i < ps.len() ==> param_name(#[trigger] ps[i]) != n,
    ensures
        bind_params(g, ps, ts)->Ok_0.len() == g.len(),
        bind_params(g, ps, ts)->Ok_0.drop_last() == g.drop_last(),
        frame_find(bind_params(g, ps, ts)->Ok_0.last(), n) == frame_find(g.last(), n),
    decreases ps.len(),
{
    if ps.len() > 0 {
        let p = ps.drop_last();
        assert forall|i: int| 0 <= i < p.len() implies param_name(#[trigger] p[i]) != n by {
            assert(p[i] == ps[i]);
        }
        lemma_bind_keeps(g, p, ts, n);
        let h = bind_params(g, p, ts)->Ok_0;
        let h2 = bind_params(g, ps, ts)->Ok_0;
        assert(param_name(ps[ps.len() - 1]) != n);
        assert(h2.drop_last() =~= h.drop_last());
        assert(h2.last().drop_last() =~= h.last());
    }
}

/// A function's own name is visible where its body starts, unless a parameter shadows
/// it: the signature is bound in the enclosing frame before the body is walked.
pub proof fn lemma_recursion_visible(
    fr: Seq<Frame>,
    return_void: bool,
    n: String,
    ps: Vec<Parameter>,
)
    requires
        fr.len() > 0,
        param_types(fr, ps@) is Ok,
        insert_spec(
            fr,
            n@,
            SymbolView::Function(return_type(return_void), param_types(fr, ps@)->Ok_0),
        ) is Ok,
        bind_params(
            insert_spec(
                fr,
                n@,
                SymbolView::Function(return_type(return_void), param_types(fr, ps@)->Ok_0),
            )->Ok_0.push(Seq::empty()),
            ps@,
            param_types(fr, ps@)->Ok_0,
        ) is Ok,
        forall|i: int| 0 <= i < ps@.len() ==> param_name(#[trigger] ps@[i]) != n@,
    ensures
        lookup(
            bind_params(
                insert_spec(
                    fr,
                    n@,
                    SymbolView::Function(return_type(return_void), param_types(fr, ps@)->Ok_0),
                )->Ok_0.push(Seq::empty()),
                ps@,
                param_types(fr, ps@)->Ok_0,
            )->Ok_0.push(Seq::empty()),
            n@,
        ) == Some(SymbolView::Function(return_type(return_void), param_types(fr, ps@)->Ok_0)),
{
    let ts = param_types(fr, ps@)->Ok_0;
    let s = SymbolView::Function(return_type(return_void), ts);
    let f1 = insert_spec(fr, n@, s)->Ok_0;
    let g = f1.push(Seq::empty());
    lemma_bind_keeps(g, ps@, ts, n@);
    let f2 = bind_params(g, ps@, ts)->Ok_0;
    assert(frame_find(f2.last(), n@) is None);
    assert(f2.drop_last() == f1);
    assert(f1.last() == fr.last().push((n@, s)));
    assert(frame_find(f1.last(), n@) == Some(s));
    let h = f2.push(Seq::empty());
    assert(h.drop_last() =~= f2);
    assert(lookup(f1, n@) == Some(s));
    assert(f2.len() > 0);
    assert(lookup(f2, n@) == Some(s));
}

/// Every check starts from the built-in functions alone, so two checks of the same tree
/// agree on its outcome, the diagnostic included.
pub proof fn lemma_check_repeatable(a1: TranslationUnit, a2: TranslationUnit)
    requires
        a1@ == a2@,
    ensures
        check_items(intrinsics(), a1@) == check_items(intrinsics(), a2@),
{
}

} // verus!
