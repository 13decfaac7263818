//! Lowering of the canonical tree into the intermediate representation.

use vstd::prelude::*;
use crate::builtin::{LowerError, resolve_builtin, resolved};
use crate::can::{CanExpr, Pattern};
use crate::expr::{Expr, ExprView, binding_views, guarded_views, keyed_views, typed_views, views};
use crate::layout::{Layout, Shape, layout_of, shape_of, shapes};
use crate::procs::{
    KeyView,
    ProcKey,
    Procs,
    extends,
    lemma_requested_concat,
    requested,
};
use crate::subs::{Content, Subs, Variable};
use crate::usage::{Uniqueness, bind, bound, fact, fact_of};
use crate::symbol::Symbol;

verus! {

/// What lowering a node gives: the lowered node, and the keys of the
/// specializations that it calls by name, in the order of the calls.
pub type Lowered = Result<(ExprView, Seq<KeyView>), LowerError>;

/// The shape of a variable's type, or the error that stops lowering.
pub open spec fn layout_shape(subs: Seq<Content>, var: Variable) -> Result<Shape, LowerError> {
    match shape_of(subs, var) {
        Ok(s) => Ok(s),
        Err(e) => Err(LowerError::Layout(e)),
    }
}

/// The layouts that typed arguments carry, in order.
pub open spec fn arg_shapes(args: Seq<(ExprView, Shape)>) -> Seq<Shape> {
    Seq::new(args.len(), |i: int| args[i].1)
}

/// The uniqueness fact of the value that a call updates, its first
/// argument; shared where there is none.
pub open spec fn first_fact(unique: Seq<Symbol>, args: Seq<(Variable, CanExpr)>) -> Uniqueness {
    if args.len() > 0 {
        fact_of(unique, args[0].1)
    } else {
        Uniqueness::Shared
    }
}

/// Whether a scrutinee of this shape has a dense discriminant: an integer,
/// a byte, a boolean or the tag of a union.
pub open spec fn is_dense(s: Shape) -> bool {
    s is Int64 || s is Byte || s is Bool || s is Union
}

/// The discriminant that a pattern stands for.
pub open spec fn discriminant(p: Pattern) -> u64 {
    match p {
        Pattern::Int(n) => n as u64,
        Pattern::Byte(b) => b as u64,
        Pattern::Bool(b) => if b { 1u64 } else { 0u64 },
        Pattern::Tag(t) => t,
        Pattern::Float(bits) => bits,
    }
}

/// The literal node that a guarded arm compares the scrutinee with.
pub open spec fn guard(p: Pattern) -> ExprView {
    match p {
        Pattern::Int(n) => ExprView::Int(n),
        Pattern::Byte(b) => ExprView::Byte(b),
        Pattern::Bool(b) => ExprView::Bool(b),
        Pattern::Tag(t) => ExprView::Int(t as i64),
        Pattern::Float(bits) => ExprView::Float(bits),
    }
}

/// The number of arms of a union; 1 for any other shape.
pub open spec fn union_size(s: Shape) -> u64 {
    match s {
        Shape::Union(arms) => arms.len() as u64,
        _ => 1u64,
    }
}

/// The node that a call of a top-level symbol lowers to, once its arguments
/// are lowered: a builtin resolves to one of its variants; a call of the
/// procedure being lowered, from its tail position, is a jump; any other is
/// a call by name that requests its specialization.
pub open spec fn lowered_call(
    symbol: Symbol,
    typed: Seq<(ExprView, Shape)>,
    uniq: Uniqueness,
    tail: Option<KeyView>,
) -> Lowered {
    if symbol.is_builtin() {
        match resolved(symbol, typed, uniq) {
            Ok(op) => Ok((ExprView::CallByName(op, typed), Seq::empty())),
            Err(e) => Err(e),
        }
    } else {
        let key = KeyView { symbol, args: arg_shapes(typed) };
        if tail == Some(key) {
            Ok((ExprView::Jump(symbol, typed), Seq::empty()))
        } else {
            Ok((ExprView::CallByName(symbol, typed), Seq::empty().push(key)))
        }
    }
}

/// Arms keyed by the discriminants of their patterns.
pub open spec fn keyed(patterns: Seq<Pattern>, values: Seq<ExprView>) -> Seq<(u64, ExprView)> {
    Seq::new(values.len(), |i: int| (discriminant(patterns[i]), values[i]))
}

/// Arms guarded by the literals of their patterns.
pub open spec fn guarded(patterns: Seq<Pattern>, values: Seq<ExprView>) -> Seq<
    (ExprView, ExprView),
> {
    Seq::new(values.len(), |i: int| (guard(patterns[i]), values[i]))
}

/// The node that a multi-way conditional lowers to, once its parts are
/// lowered: a switch where the scrutinee has a dense discriminant, guarded
/// branches otherwise.
pub open spec fn lowered_when(
    cond: ExprView,
    cond_layout: Shape,
    patterns: Seq<Pattern>,
    values: Seq<ExprView>,
    default: ExprView,
    ret_layout: Shape,
) -> ExprView {
    if is_dense(cond_layout) {
        ExprView::Switch {
            cond: Box::new(cond),
            cond_layout,
            branches: keyed(patterns, values),
            default_branch: Box::new(default),
            ret_layout,
        }
    } else {
        ExprView::Branches {
            cond: Box::new(cond),
            branches: guarded(patterns, values),
            default: Box::new(default),
            ret_layout,
        }
    }
}

/// The patterns of a sequence of arms.
pub open spec fn patterns_of(arms: Seq<(Pattern, CanExpr)>) -> Seq<Pattern> {
    Seq::new(arms.len(), |i: int| arms[i].0)
}

/// What a node lowers to at the top of a body: no binding is in sight.
/// `tail` is the key of the procedure in whose tail position the node
/// stands, if it stands in one.
pub open spec fn lowered(subs: Seq<Content>, can: CanExpr, tail: Option<KeyView>) -> Lowered {
    lowered_in(subs, can, tail, Seq::empty())
}

/// What a node lowers to where the bindings in `unique` are in sight and
/// unique: each was bound to a fresh value and is read at most once.
pub open spec fn lowered_in(
    subs: Seq<Content>,
    can: CanExpr,
    tail: Option<KeyView>,
    unique: Seq<Symbol>,
) -> Lowered
    decreases can,
{
    match can {
        CanExpr::Int(n) => Ok((ExprView::Int(n), Seq::empty())),
        CanExpr::Float(bits) => Ok((ExprView::Float(bits), Seq::empty())),
        CanExpr::Str(s) => Ok((ExprView::Str(s@), Seq::empty())),
        CanExpr::Bool(b) => Ok((ExprView::Bool(b), Seq::empty())),
        CanExpr::Byte(b) => Ok((ExprView::Byte(b), Seq::empty())),
        CanExpr::Var(s) => Ok((ExprView::Load(s), Seq::empty())),
        CanExpr::RuntimeError(msg) => Ok((ExprView::RuntimeError(msg@), Seq::empty())),
        CanExpr::List { elem_var, elems } => match lowered_all(subs, elems@, unique) {
            Err(e) => Err(e),
            Ok((es, ks)) => match layout_shape(subs, elem_var) {
                Err(e) => Err(e),
                Ok(l) => Ok((ExprView::Array { elem_layout: l, elems: es }, ks)),
            },
        },
        CanExpr::Let { symbol, var, value, body } => match lowered_in(subs, *value, None, unique) {
            Err(e) => Err(e),
            Ok((v, k1)) => match layout_shape(subs, var) {
                Err(e) => Err(e),
                Ok(l) => match lowered_in(subs, *body, tail, bound(unique, symbol, *value, *body)) {
                    Err(e) => Err(e),
                    Ok((b, k2)) => Ok((ExprView::Store(seq![(symbol, l, v)], Box::new(b)), k1 + k2)),
                },
            },
        },
        CanExpr::Call { symbol, args } => match lowered_typed(subs, args@, unique) {
            Err(e) => Err(e),
            Ok((typed, ks)) => match lowered_call(
                symbol,
                typed,
                first_fact(unique, args@),
                tail,
            ) {
                Err(e) => Err(e),
                Ok((call, k)) => Ok((call, ks + k)),
            },
        },
        CanExpr::CallValue { fn_var, func, args } => match lowered_in(subs, *func, None, unique) {
            Err(e) => Err(e),
            Ok((f, k1)) => match lowered_all(subs, args@, unique) {
                Err(e) => Err(e),
                Ok((es, k2)) => match layout_shape(subs, fn_var) {
                    Err(e) => Err(e),
                    Ok(l) => Ok((ExprView::CallByPointer(Box::new(f), es, l), k1 + k2)),
                },
            },
        },
        CanExpr::If { cond_var, ret_var, cond, pass, fail } => match lowered_in(subs, *cond, None, unique) {
            Err(e) => Err(e),
            Ok((c, k1)) => match lowered_in(subs, *pass, tail, unique) {
                Err(e) => Err(e),
                Ok((p, k2)) => match lowered_in(subs, *fail, tail, unique) {
                    Err(e) => Err(e),
                    Ok((f, k3)) => match layout_shape(subs, cond_var) {
                        Err(e) => Err(e),
                        Ok(cl) => match layout_shape(subs, ret_var) {
                            Err(e) => Err(e),
                            Ok(rl) => Ok(
                                (
                                    ExprView::Cond {
                                        cond: Box::new(c),
                                        cond_layout: cl,
                                        pass: Box::new(p),
                                        fail: Box::new(f),
                                        ret_layout: rl,
                                    },
                                    k1 + k2 + k3,
                                ),
                            ),
                        },
                    },
                },
            },
        },
        CanExpr::When { cond_var, ret_var, cond, branches, default } => match layout_shape(
            subs,
            cond_var,
        ) {
            Err(e) => Err(e),
            Ok(cl) => match layout_shape(subs, ret_var) {
                Err(e) => Err(e),
                Ok(rl) => match lowered_in(subs, *cond, None, unique) {
                    Err(e) => Err(e),
                    Ok((c, k1)) => match lowered_arms(subs, branches@, tail, unique) {
                        Err(e) => Err(e),
                        Ok((vs, k2)) => match lowered_in(subs, *default, tail, unique) {
                            Err(e) => Err(e),
                            Ok((d, k3)) => Ok(
                                (
                                    lowered_when(c, cl, patterns_of(branches@), vs, d, rl),
                                    k1 + k2 + k3,
                                ),
                            ),
                        },
                    },
                },
            },
        },
        CanExpr::Record(fields) => match lowered_typed(subs, fields@, unique) {
            Err(e) => Err(e),
            Ok((typed, ks)) => Ok((ExprView::Struct(typed), ks)),
        },
        CanExpr::Access { record_var, field_var, label, record } => match lowered_in(subs, *record, None, unique) {
            Err(e) => Err(e),
            Ok((r, ks)) => match layout_shape(subs, field_var) {
                Err(e) => Err(e),
                Ok(fl) => match layout_shape(subs, record_var) {
                    Err(e) => Err(e),
                    Ok(sl) => Ok(
                        (
                            ExprView::Access {
                                label,
                                field_layout: fl,
                                struct_layout: sl,
                                record: Box::new(r),
                            },
                            ks,
                        ),
                    ),
                },
            },
        },
        CanExpr::Tag { union_var, tag_id, args } => match lowered_typed(subs, args@, unique) {
            Err(e) => Err(e),
            Ok((typed, ks)) => match layout_shape(subs, union_var) {
                Err(e) => Err(e),
                Ok(l) => Ok(
                    (
                        ExprView::Tag {
                            tag_layout: l,
                            tag_id,
                            union_size: union_size(l),
                            arguments: typed,
                        },
                        ks,
                    ),
                ),
            },
        },
    }
}

/// What a sequence of nodes lowers to, none of them in tail position: the
/// lowered nodes and the requested keys in order, or the first error.
pub open spec fn lowered_all(subs: Seq<Content>, cans: Seq<CanExpr>, unique: Seq<Symbol>) -> Result<
    (Seq<ExprView>, Seq<KeyView>),
    LowerError,
>
    decreases cans,
{
    if cans.len() == 0 {
        Ok((Seq::empty(), Seq::empty()))
    } else {
        match lowered_all(subs, cans.drop_last(), unique) {
            Err(e) => Err(e),
            Ok((es, ks)) => match lowered_in(subs, cans.last(), None, unique) {
                Err(e) => Err(e),
                Ok((e, k)) => Ok((es.push(e), ks + k)),
            },
        }
    }
}

/// What a sequence of typed nodes lowers to: each lowered node with the
/// layout of its type, and the requested keys in order, or the first error.
pub open spec fn lowered_typed(
    subs: Seq<Content>,
    cans: Seq<(Variable, CanExpr)>,
    unique: Seq<Symbol>,
) -> Result<
    (Seq<(ExprView, Shape)>, Seq<KeyView>),
    LowerError,
>
    decreases cans,
{
    if cans.len() == 0 {
        Ok((Seq::empty(), Seq::empty()))
    } else {
        match lowered_typed(subs, cans.drop_last(), unique) {
            Err(e) => Err(e),
            Ok((es, ks)) => match lowered_in(subs, cans.last().1, None, unique) {
                Err(e) => Err(e),
                Ok((e, k)) => match layout_shape(subs, cans.last().0) {
                    Err(e) => Err(e),
                    Ok(l) => Ok((es.push((e, l)), ks + k)),
                },
            },
        }
    }
}

/// What the values of a sequence of arms lower to, each in the tail
/// position of the conditional, or the first error.
pub open spec fn lowered_arms(
    subs: Seq<Content>,
    arms: Seq<(Pattern, CanExpr)>,
    tail: Option<KeyView>,
    unique: Seq<Symbol>,
) -> Result<(Seq<ExprView>, Seq<KeyView>), LowerError>
    decreases arms,
{
    if arms.len() == 0 {
        Ok((Seq::empty(), Seq::empty()))
    } else {
        match lowered_arms(subs, arms.drop_last(), tail, unique) {
            Err(e) => Err(e),
            Ok((es, ks)) => match lowered_in(subs, arms.last().1, tail, unique) {
                Err(e) => Err(e),
                Ok((e, k)) => Ok((es.push(e), ks + k)),
            },
        }
    }
}

/// The key in whose tail position a node stands, as a value.
pub open spec fn tail_view(tail: Option<&ProcKey>) -> Option<KeyView> {
    match tail {
        Some(k) => Some(k@),
        None => None,
    }
}

/// Whether a result is this value together with these keys.
pub open spec fn gives<T>(r: Result<(T, Seq<KeyView>), LowerError>, value: T, keys: Seq<KeyView>) -> bool {
    r matches Ok(p) && p.0 == value && p.1 == keys
}

/// Whether a result is this error.
pub open spec fn fails<T>(r: Result<(T, Seq<KeyView>), LowerError>, e: LowerError) -> bool {
    r matches Err(x) && x == e
}

/// The keys that a result requests; none where it is an error.
pub open spec fn keys_of<T>(r: Result<(T, Seq<KeyView>), LowerError>) -> Seq<KeyView> {
    match r {
        Ok(p) => p.1,
        Err(_) => Seq::empty(),
    }
}

/// An error among the first `n` nodes is the error of the whole sequence.
pub proof fn lemma_all_error(subs: Seq<Content>, cans: Seq<CanExpr>, unique: Seq<Symbol>, n: int)
    requires
        0 <= n <= cans.len(),
        lowered_all(subs, cans.take(n), unique) is Err,
    ensures
        lowered_all(subs, cans, unique) == lowered_all(subs, cans.take(n), unique),
    decreases cans.len() - n,
{
    if n < cans.len() {
        assert(cans.take(n + 1).drop_last() =~= cans.take(n));
        lemma_all_error(subs, cans, unique, n + 1);
    } else {
        assert(cans.take(n) =~= cans);
    }
}

/// An error among the first `n` typed nodes is the error of the whole sequence.
pub proof fn lemma_typed_error(
    subs: Seq<Content>,
    cans: Seq<(Variable, CanExpr)>,
    unique: Seq<Symbol>,
    n: int,
)
    requires
        0 <= n <= cans.len(),
        lowered_typed(subs, cans.take(n), unique) is Err,
    ensures
        lowered_typed(subs, cans, unique) == lowered_typed(subs, cans.take(n), unique),
    decreases cans.len() - n,
{
    if n < cans.len() {
        assert(cans.take(n + 1).drop_last() =~= cans.take(n));
        lemma_typed_error(subs, cans, unique, n + 1);
    } else {
        assert(cans.take(n) =~= cans);
    }
}

/// An error among the first `n` arms is the error of the whole sequence.
pub proof fn lemma_arms_error(
    subs: Seq<Content>,
    arms: Seq<(Pattern, CanExpr)>,
    tail: Option<KeyView>,
    unique: Seq<Symbol>,
    n: int,
)
    requires
        0 <= n <= arms.len(),
        lowered_arms(subs, arms.take(n), tail, unique) is Err,
    ensures
        lowered_arms(subs, arms, tail, unique) == lowered_arms(subs, arms.take(n), tail, unique),
    decreases arms.len() - n,
{
    if n < arms.len() {
        assert(arms.take(n + 1).drop_last() =~= arms.take(n));
        lemma_arms_error(subs, arms, tail, unique, n + 1);
    } else {
        assert(arms.take(n) =~= arms);
    }
}

/// Resolves the layout of a variable's type for a node being lowered.
pub fn layout(subs: &Subs, var: Variable) -> (r: Result<Layout, LowerError>)
    ensures
        match r {
            Ok(l) => layout_shape(subs@, var) matches Ok(s) && s == l.shape(),
            Err(e) => layout_shape(subs@, var) matches Err(x) && x == e,
        },
{
    match layout_of(subs, var) {
        Ok(l) => Ok(l),
        Err(e) => Err(LowerError::Layout(e)),
    }
}

/// The layouts that typed arguments carry, in order.
pub fn arg_layouts(args: &Vec<(Expr, Layout)>) -> (r: Vec<Layout>)
    ensures
        shapes(r@) == arg_shapes(typed_views(args@)),
{
    let mut out: Vec<Layout> = Vec::new();
    let mut i: usize = 0;
    while i < args.len()
        invariant
            i <= args.len(),
            out.len() == i,
            forall|j: int| 0 <= j < i ==> out@[j].shape() == args@[j].1.shape(),
        decreases args.len() - i,
    {
        out.push(args[i].1.copy());
        i += 1;
    }
    proof {
        assert(shapes(out@) =~= arg_shapes(typed_views(args@)));
    }
    out
}

/// The discriminant that a pattern stands for.
pub fn pattern_discriminant(p: &Pattern) -> (d: u64)
    ensures
        d == discriminant(*p),
{
    match p {
        Pattern::Int(n) => *n as u64,
        Pattern::Byte(b) => *b as u64,
        Pattern::Bool(b) => if *b { 1 } else { 0 },
        Pattern::Tag(t) => *t,
        Pattern::Float(bits) => *bits,
    }
}

/// The literal node that a guarded arm compares the scrutinee with.
pub fn pattern_guard(p: &Pattern) -> (e: Expr)
    ensures
        e@ == guard(*p),
{
    match p {
        Pattern::Int(n) => Expr::Int(*n),
        Pattern::Byte(b) => Expr::Byte(*b),
        Pattern::Bool(b) => Expr::Bool(*b),
        Pattern::Tag(t) => Expr::Int(*t as i64),
        Pattern::Float(bits) => Expr::Float(*bits),
    }
}

/// Whether a scrutinee of this layout has a dense discriminant.
pub fn has_dense_discriminant(l: &Layout) -> (r: bool)
    ensures
        r == is_dense(l.shape()),
{
    match l {
        Layout::Int64 => true,
        Layout::Byte => true,
        Layout::Bool => true,
        Layout::Union(_) => true,
        _ => false,
    }
}

/// The number of arms of a union layout; 1 for any other layout.
pub fn arms_of(l: &Layout) -> (n: u64)
    ensures
        n == union_size(l.shape()),
{
    match l {
        Layout::Union(arms) => {
            proof {
                assert(shapes(arms@).len() == arms@.len());
            }
            arms.len() as u64
        },
        _ => 1,
    }
}

/// Lowers the nodes in order, none of them in tail position.
pub fn lower_all(subs: &Subs, cans: &Vec<CanExpr>, procs: &mut Procs, unique: &Vec<Symbol>) -> (r:
    Result<Vec<Expr>, LowerError>)
    requires
        old(procs).wf(),
    ensures
        final(procs).wf(),
        extends(old(procs)@, final(procs)@),
        match r {
            Ok(es) => gives(lowered_all(subs@, cans@, unique@), views(es@), keys_of(lowered_all(subs@, cans@, unique@)))
                && final(procs)@ == requested(old(procs)@, keys_of(lowered_all(subs@, cans@, unique@))),
            Err(x) => fails(lowered_all(subs@, cans@, unique@), x),
        },
    decreases *cans,
{
    let ghost before = procs@;
    let ghost mut keys: Seq<KeyView> = Seq::empty();
    let mut out: Vec<Expr> = Vec::new();
    let mut i: usize = 0;
    proof {
        assert(cans@.take(0) =~= Seq::empty());
        assert(views(out@) =~= Seq::empty());
    }
    while i < cans.len()
        invariant
            i <= cans.len(),
            procs.wf(),
            before == old(procs)@,
            extends(before, procs@),
            gives(lowered_all(subs@, cans@.take(i as int), unique@), views(out@), keys),
            procs@ == requested(before, keys),
        decreases cans.len() - i,
    {
        proof {
            assert(cans@.take(i + 1).drop_last() =~= cans@.take(i as int));
            assert(cans@.take(i + 1).last() == cans@[i as int]);
        }
        match lower_in(subs, &cans[i], procs, None, unique) {
            Ok(e) => {
                proof {
                    let k = keys_of(lowered_in(subs@, cans@[i as int], None, unique@));
                    lemma_requested_concat(before, keys, k);
                    assert(views(out@.push(e)) =~= views(out@).push(e@));
                    keys = keys + k;
                }
                out.push(e);
            },
            Err(x) => {
                proof {
                    lemma_all_error(subs@, cans@, unique@, i + 1);
                }
                return Err(x);
            },
        }
        i += 1;
    }
    proof {
        assert(cans@.take(cans.len() as int) =~= cans@);
    }
    Ok(out)
}

/// Lowers the typed nodes in order, each with the layout of its type.
pub fn lower_typed(
    subs: &Subs,
    cans: &Vec<(Variable, CanExpr)>,
    procs: &mut Procs,
    unique: &Vec<Symbol>,
) -> (r: Result<Vec<(Expr, Layout)>, LowerError>)
    requires
        old(procs).wf(),
    ensures
        final(procs).wf(),
        extends(old(procs)@, final(procs)@),
        match r {
            Ok(es) => gives(
                lowered_typed(subs@, cans@, unique@),
                typed_views(es@),
                keys_of(lowered_typed(subs@, cans@, unique@)),
            ) && final(procs)@ == requested(old(procs)@, keys_of(lowered_typed(subs@, cans@, unique@))),
            Err(x) => fails(lowered_typed(subs@, cans@, unique@), x),
        },
    decreases *cans,
{
    let ghost before = procs@;
    let ghost mut keys: Seq<KeyView> = Seq::empty();
    let mut out: Vec<(Expr, Layout)> = Vec::new();
    let mut i: usize = 0;
    proof {
        assert(cans@.take(0) =~= Seq::empty());
        assert(typed_views(out@) =~= Seq::empty());
    }
    while i < cans.len()
        invariant
            i <= cans.len(),
            procs.wf(),
            before == old(procs)@,
            extends(before, procs@),
            gives(lowered_typed(subs@, cans@.take(i as int), unique@), typed_views(out@), keys),
            procs@ == requested(before, keys),
        decreases cans.len() - i,
    {
        proof {
            assert(cans@.take(i + 1).drop_last() =~= cans@.take(i as int));
            assert(cans@.take(i + 1).last() == cans@[i as int]);
        }
        match lower_in(subs, &cans[i].1, procs, None, unique) {
            Ok(e) => match layout(subs, cans[i].0) {
                Ok(l) => {
                    proof {
                        let k = keys_of(lowered_in(subs@, cans@[i as int].1, None, unique@));
                        lemma_requested_concat(before, keys, k);
                        assert(typed_views(out@.push((e, l))) =~= typed_views(out@).push(
                            (e@, l.shape()),
                        ));
                        keys = keys + k;
                    }
                    out.push((e, l));
                },
                Err(x) => {
                    proof {
                        lemma_typed_error(subs@, cans@, unique@, i + 1);
                    }
                    return Err(x);
                },
            },
            Err(x) => {
                proof {
                    lemma_typed_error(subs@, cans@, unique@, i + 1);
                }
                return Err(x);
            },
        }
        i += 1;
    }
    proof {
        assert(cans@.take(cans.len() as int) =~= cans@);
    }
    Ok(out)
}

/// Lowers the arms of a switch: each value in the conditional's tail
/// position, keyed by the discriminant of its pattern.
pub fn lower_keyed(
    subs: &Subs,
    arms: &Vec<(Pattern, CanExpr)>,
    procs: &mut Procs,
    tail: Option<&ProcKey>,
    unique: &Vec<Symbol>,
) -> (r: Result<Vec<(u64, Expr)>, LowerError>)
    requires
        old(procs).wf(),
    ensures
        final(procs).wf(),
        extends(old(procs)@, final(procs)@),
        match r {
            Ok(es) => lowered_arms(subs@, arms@, tail_view(tail), unique@) matches Ok(p) && keyed_views(es@)
                == keyed(patterns_of(arms@), p.0) && final(procs)@ == requested(old(procs)@, p.1),
            Err(x) => fails(lowered_arms(subs@, arms@, tail_view(tail), unique@), x),
        },
    decreases *arms,
{
    let ghost before = procs@;
    let ghost mut keys: Seq<KeyView> = Seq::empty();
    let ghost mut vals: Seq<ExprView> = Seq::empty();
    let mut out: Vec<(u64, Expr)> = Vec::new();
    let mut i: usize = 0;
    proof {
        assert(arms@.take(0) =~= Seq::empty());
    }
    while i < arms.len()
        invariant
            i <= arms.len(),
            procs.wf(),
            before == old(procs)@,
            extends(before, procs@),
            gives(lowered_arms(subs@, arms@.take(i as int), tail_view(tail), unique@), vals, keys),
            procs@ == requested(before, keys),
            out.len() == i,
            vals.len() == i,
            forall|j: int|
                0 <= j < i ==> out@[j].0 == discriminant(arms@[j].0) && out@[j].1@ == vals[j],
        decreases arms.len() - i,
    {
        proof {
            assert(arms@.take(i + 1).drop_last() =~= arms@.take(i as int));
            assert(arms@.take(i + 1).last() == arms@[i as int]);
        }
        match lower_in(subs, &arms[i].1, procs, tail, unique) {
            Ok(e) => {
                proof {
                    let k = keys_of(lowered_in(subs@, arms@[i as int].1, tail_view(tail), unique@));
                    lemma_requested_concat(before, keys, k);
                    keys = keys + k;
                    vals = vals.push(e@);
                }
                out.push((pattern_discriminant(&arms[i].0), e));
            },
            Err(x) => {
                proof {
                    lemma_arms_error(subs@, arms@, tail_view(tail), unique@, i + 1);
                }
                return Err(x);
            },
        }
        i += 1;
    }
    proof {
        assert(arms@.take(arms.len() as int) =~= arms@);
        assert(keyed_views(out@) =~= keyed(patterns_of(arms@), vals));
    }
    Ok(out)
}

/// Lowers the arms of guarded branches: each value in the conditional's
/// tail position, guarded by the literal of its pattern.
pub fn lower_guarded(
    subs: &Subs,
    arms: &Vec<(Pattern, CanExpr)>,
    procs: &mut Procs,
    tail: Option<&ProcKey>,
    unique: &Vec<Symbol>,
) -> (r: Result<Vec<(Expr, Expr)>, LowerError>)
    requires
        old(procs).wf(),
    ensures
        final(procs).wf(),
        extends(old(procs)@, final(procs)@),
        match r {
            Ok(es) => lowered_arms(subs@, arms@, tail_view(tail), unique@) matches Ok(p) && guarded_views(es@)
                == guarded(patterns_of(arms@), p.0) && final(procs)@ == requested(
                old(procs)@,
                p.1,
            ),
            Err(x) => fails(lowered_arms(subs@, arms@, tail_view(tail), unique@), x),
        },
    decreases *arms,
{
    let ghost before = procs@;
    let ghost mut keys: Seq<KeyView> = Seq::empty();
    let ghost mut vals: Seq<ExprView> = Seq::empty();
    let mut out: Vec<(Expr, Expr)> = Vec::new();
    let mut i: usize = 0;
    proof {
        assert(arms@.take(0) =~= Seq::empty());
    }
    while i < arms.len()
        invariant
            i <= arms.len(),
            procs.wf(),
            before == old(procs)@,
            extends(before, procs@),
            gives(lowered_arms(subs@, arms@.take(i as int), tail_view(tail), unique@), vals, keys),
            procs@ == requested(before, keys),
            out.len() == i,
            vals.len() == i,
            forall|j: int| 0 <= j < i ==> out@[j].0@ == guard(arms@[j].0) && out@[j].1@ == vals[j],
        decreases arms.len() - i,
    {
        proof {
            assert(arms@.take(i + 1).drop_last() =~= arms@.take(i as int));
            assert(arms@.take(i + 1).last() == arms@[i as int]);
        }
        match lower_in(subs, &arms[i].1, procs, tail, unique) {
            Ok(e) => {
                proof {
                    let k = keys_of(lowered_in(subs@, arms@[i as int].1, tail_view(tail), unique@));
                    lemma_requested_concat(before, keys, k);
                    keys = keys + k;
                    vals = vals.push(e@);
                }
                out.push((pattern_guard(&arms[i].0), e));
            },
            Err(x) => {
                proof {
                    lemma_arms_error(subs@, arms@, tail_view(tail), unique@, i + 1);
                }
                return Err(x);
            },
        }
        i += 1;
    }
    proof {
        assert(arms@.take(arms.len() as int) =~= arms@);
        assert(guarded_views(out@) =~= guarded(patterns_of(arms@), vals));
    }
    Ok(out)
}

/// Lowers a call of a top-level symbol whose arguments are lowered already.
pub fn lower_call(
    symbol: Symbol,
    typed: Vec<(Expr, Layout)>,
    uniq: Uniqueness,
    procs: &mut Procs,
    tail: Option<&ProcKey>,
) -> (r: Result<Expr, LowerError>)
    requires
        old(procs).wf(),
    ensures
        final(procs).wf(),
        extends(old(procs)@, final(procs)@),
        match r {
            Ok(e) => lowered_call(symbol, typed_views(typed@), uniq, tail_view(tail)) matches Ok(p)
                && p.0 == e@ && final(procs)@ == requested(old(procs)@, p.1),
            Err(x) => fails(lowered_call(symbol, typed_views(typed@), uniq, tail_view(tail)), x),
        },
{
    if symbol.in_builtin_module() {
        match resolve_builtin(symbol, &typed, uniq) {
            Ok(op) => Ok(Expr::CallByName(op, typed)),
            Err(e) => Err(e),
        }
    } else {
        let key = ProcKey { symbol, args: arg_layouts(&typed) };
        let jump = match tail {
            Some(t) => t.same(&key),
            None => false,
        };
        if jump {
            Ok(Expr::Jump(symbol, typed))
        } else {
            proof {
                let ks = Seq::<KeyView>::empty().push(key@);
                assert(ks.drop_last() =~= Seq::<KeyView>::empty());
                assert(requested(procs@, ks.drop_last()) == procs@);
            }
            procs.insert_if_absent(key, None);
            Ok(Expr::CallByName(symbol, typed))
        }
    }
}

/// Lowers a node of the canonical tree that stands at the top of a body.
///
/// `tail` is the key of the procedure in whose tail position the node
/// stands, if it stands in one. Every specialization that the lowered node
/// calls by name is requested in the table, in the order of the calls; the
/// entries that were there stay as they were. Fails where a type that the
/// node reaches has no layout, or where a builtin call fits no variant.
pub fn lower(subs: &Subs, can: &CanExpr, procs: &mut Procs, tail: Option<&ProcKey>) -> (r: Result<
    Expr,
    LowerError,
>)
    requires
        old(procs).wf(),
    ensures
        final(procs).wf(),
        extends(old(procs)@, final(procs)@),
        match r {
            Ok(e) => lowered(subs@, *can, tail_view(tail)) matches Ok(p) && p.0 == e@
                && final(procs)@ == requested(old(procs)@, p.1),
            Err(x) => fails(lowered(subs@, *can, tail_view(tail)), x),
        },
{
    let unique: Vec<Symbol> = Vec::new();
    lower_in(subs, can, procs, tail, &unique)
}

/// Lowers a node of the canonical tree where the bindings in `unique` are
/// in sight and unique. A binding that the node makes is unique in its body
/// where its value is fresh and the body reads it at most once; the element
/// update of a fresh value or of a unique binding becomes the in-place one.
pub fn lower_in(
    subs: &Subs,
    can: &CanExpr,
    procs: &mut Procs,
    tail: Option<&ProcKey>,
    unique: &Vec<Symbol>,
) -> (r: Result<Expr, LowerError>)
    requires
        old(procs).wf(),
    ensures
        final(procs).wf(),
        extends(old(procs)@, final(procs)@),
        match r {
            Ok(e) => lowered_in(subs@, *can, tail_view(tail), unique@) matches Ok(p) && p.0 == e@
                && final(procs)@ == requested(old(procs)@, p.1),
            Err(x) => fails(lowered_in(subs@, *can, tail_view(tail), unique@), x),
        },
    decreases *can,
{
    let ghost start = procs@;
    let ghost tl = tail_view(tail);
    match can {
        CanExpr::Int(n) => Ok(Expr::Int(*n)),
        CanExpr::Float(bits) => Ok(Expr::Float(*bits)),
        CanExpr::Str(s) => Ok(Expr::Str(s.clone())),
        CanExpr::Bool(b) => Ok(Expr::Bool(*b)),
        CanExpr::Byte(b) => Ok(Expr::Byte(*b)),
        CanExpr::Var(s) => Ok(Expr::Load(*s)),
        CanExpr::RuntimeError(msg) => Ok(Expr::RuntimeError(msg.clone())),
        CanExpr::List { elem_var, elems } => {
            let es = match lower_all(subs, elems, procs, unique) {
                Ok(es) => es,
                Err(e) => return Err(e),
            };
            match layout(subs, *elem_var) {
                Ok(l) => Ok(Expr::Array { elem_layout: l, elems: es }),
                Err(e) => Err(e),
            }
        },
        CanExpr::Let { symbol, var, value, body } => {
            let v = match lower_in(subs, value, procs, None, unique) {
                Ok(v) => v,
                Err(e) => return Err(e),
            };
            let l = match layout(subs, *var) {
                Ok(l) => l,
                Err(e) => return Err(e),
            };
            let inner = bind(unique, *symbol, value, body);
            let b = match lower_in(subs, body, procs, tail, &inner) {
                Ok(b) => b,
                Err(e) => return Err(e),
            };
            proof {
                lemma_requested_concat(
                    start,
                    keys_of(lowered_in(subs@, **value, None, unique@)),
                    keys_of(lowered_in(subs@, **body, tl, bound(unique@, *symbol, **value, **body))),
                );
            }
            let mut bindings: Vec<(Symbol, Layout, Expr)> = Vec::new();
            bindings.push((*symbol, l, v));
            proof {
                assert(binding_views(bindings@) =~= seq![(*symbol, l.shape(), v@)]);
            }
            Ok(Expr::Store(bindings, Box::new(b)))
        },
        CanExpr::Call { symbol, args } => {
            let typed = match lower_typed(subs, args, procs, unique) {
                Ok(t) => t,
                Err(e) => return Err(e),
            };
            let uniq = if args.len() > 0 {
                fact(unique, &args[0].1)
            } else {
                Uniqueness::Shared
            };
            let ghost tv = typed_views(typed@);
            proof {
                lemma_requested_concat(
                    start,
                    keys_of(lowered_typed(subs@, args@, unique@)),
                    keys_of(lowered_call(*symbol, tv, uniq, tl)),
                );
            }
            lower_call(*symbol, typed, uniq, procs, tail)
        },
        CanExpr::CallValue { fn_var, func, args } => {
            let f = match lower_in(subs, func, procs, None, unique) {
                Ok(f) => f,
                Err(e) => return Err(e),
            };
            let es = match lower_all(subs, args, procs, unique) {
                Ok(es) => es,
                Err(e) => return Err(e),
            };
            proof {
                lemma_requested_concat(
                    start,
                    keys_of(lowered_in(subs@, **func, None, unique@)),
                    keys_of(lowered_all(subs@, args@, unique@)),
                );
            }
            match layout(subs, *fn_var) {
                Ok(l) => Ok(Expr::CallByPointer(Box::new(f), es, l)),
                Err(e) => Err(e),
            }
        },
        CanExpr::If { cond_var, ret_var, cond, pass, fail } => {
            let c = match lower_in(subs, cond, procs, None, unique) {
                Ok(c) => c,
                Err(e) => return Err(e),
            };
            let p = match lower_in(subs, pass, procs, tail, unique) {
                Ok(p) => p,
                Err(e) => return Err(e),
            };
            let f = match lower_in(subs, fail, procs, tail, unique) {
                Ok(f) => f,
                Err(e) => return Err(e),
            };
            proof {
                let k1 = keys_of(lowered_in(subs@, **cond, None, unique@));
                let k2 = keys_of(lowered_in(subs@, **pass, tl, unique@));
                let k3 = keys_of(lowered_in(subs@, **fail, tl, unique@));
                lemma_requested_concat(start, k1, k2);
                lemma_requested_concat(start, k1 + k2, k3);
            }
            let cl = match layout(subs, *cond_var) {
                Ok(l) => l,
                Err(e) => return Err(e),
            };
            let rl = match layout(subs, *ret_var) {
                Ok(l) => l,
                Err(e) => return Err(e),
            };
            Ok(
                Expr::Cond {
                    cond: Box::new(c),
                    cond_layout: cl,
                    pass: Box::new(p),
                    fail: Box::new(f),
                    ret_layout: rl,
                },
            )
        },
        CanExpr::When { cond_var, ret_var, cond, branches, default } => {
            let cl = match layout(subs, *cond_var) {
                Ok(l) => l,
                Err(e) => return Err(e),
            };
            let rl = match layout(subs, *ret_var) {
                Ok(l) => l,
                Err(e) => return Err(e),
            };
            let c = match lower_in(subs, cond, procs, None, unique) {
                Ok(c) => c,
                Err(e) => return Err(e),
            };
            proof {
                let k1 = keys_of(lowered_in(subs@, **cond, None, unique@));
                let k2 = keys_of(lowered_arms(subs@, branches@, tl, unique@));
                let k3 = keys_of(lowered_in(subs@, **default, tl, unique@));
                lemma_requested_concat(start, k1, k2);
                lemma_requested_concat(start, k1 + k2, k3);
            }
            if has_dense_discriminant(&cl) {
                let arms = match lower_keyed(subs, branches, procs, tail, unique) {
                    Ok(a) => a,
                    Err(e) => return Err(e),
                };
                let d = match lower_in(subs, default, procs, tail, unique) {
                    Ok(d) => d,
                    Err(e) => return Err(e),
                };
                Ok(
                    Expr::Switch {
                        cond: Box::new(c),
                        cond_layout: cl,
                        branches: arms,
                        default_branch: Box::new(d),
                        ret_layout: rl,
                    },
                )
            } else {
                let arms = match lower_guarded(subs, branches, procs, tail, unique) {
                    Ok(a) => a,
                    Err(e) => return Err(e),
                };
                let d = match lower_in(subs, default, procs, tail, unique) {
                    Ok(d) => d,
                    Err(e) => return Err(e),
                };
                Ok(
                    Expr::Branches {
                        cond: Box::new(c),
                        branches: arms,
                        default: Box::new(d),
                        ret_layout: rl,
                    },
                )
            }
        },
        CanExpr::Record(fields) => {
            match lower_typed(subs, fields, procs, unique) {
                Ok(typed) => Ok(Expr::Struct(typed)),
                Err(e) => Err(e),
            }
        },
        CanExpr::Access { record_var, field_var, label, record } => {
            let r = match lower_in(subs, record, procs, None, unique) {
                Ok(r) => r,
                Err(e) => return Err(e),
            };
            let fl = match layout(subs, *field_var) {
                Ok(l) => l,
                Err(e) => return Err(e),
            };
            let sl = match layout(subs, *record_var) {
                Ok(l) => l,
                Err(e) => return Err(e),
            };
            Ok(Expr::Access { label: *label, field_layout: fl, struct_layout: sl, record: Box::new(r) })
        },
        CanExpr::Tag { union_var, tag_id, args } => {
            let typed = match lower_typed(subs, args, procs, unique) {
                Ok(t) => t,
                Err(e) => return Err(e),
            };
            let l = match layout(subs, *union_var) {
                Ok(l) => l,
                Err(e) => return Err(e),
            };
            let n = arms_of(&l);
            Ok(Expr::Tag { tag_layout: l, tag_id: *tag_id, union_size: n, arguments: typed })
        },
    }
}

} // verus!
