//! What holds of lowering, of the layouts and of the procedure table,
//! whatever the input.

use vstd::prelude::*;
use crate::builtin::{LowerError, fits_set, resolved};
use crate::can::{CanExpr, Pattern};
use crate::expr::ExprView;
use crate::layout::{Field, Layout, LayoutError, Shape, by_label, has_repeat, placed, resolves, shape_of};
use crate::lower::{
    arg_shapes,
    first_fact,
    lowered_typed,
    is_dense,
    layout_shape,
    lowered,
    lowered_in,
    lowered_all,
    lowered_call,
};
use crate::procs::{EntryView, KeyView, has_key, inserted, lemma_inserted_unique, requested, unique_keys};
use crate::subs::{Content, Variable};
use crate::usage::{Uniqueness, binds_unique, bound, fact_of, is_fresh, reads};
use crate::symbol::{Symbol, list_symbol, LIST_SET, LIST_SET_IN_PLACE};

verus! {

/// A literal lowers to the literal node of the same kind and value, and
/// requests no specialization.
pub proof fn lemma_literals_keep_their_value(
    subs: Seq<Content>,
    tail: Option<KeyView>,
    n: i64,
    bits: u64,
    s: String,
    b: bool,
    byte: u8,
)
    ensures
        lowered(subs, CanExpr::Int(n), tail) == Ok::<_, LowerError>(
            (ExprView::Int(n), Seq::<KeyView>::empty()),
        ),
        lowered(subs, CanExpr::Float(bits), tail) == Ok::<_, LowerError>(
            (ExprView::Float(bits), Seq::<KeyView>::empty()),
        ),
        lowered(subs, CanExpr::Str(s), tail) == Ok::<_, LowerError>(
            (ExprView::Str(s@), Seq::<KeyView>::empty()),
        ),
        lowered(subs, CanExpr::Bool(b), tail) == Ok::<_, LowerError>(
            (ExprView::Bool(b), Seq::<KeyView>::empty()),
        ),
        lowered(subs, CanExpr::Byte(byte), tail) == Ok::<_, LowerError>(
            (ExprView::Byte(byte), Seq::<KeyView>::empty()),
        ),
{
}

/// However many keys are requested, and however often the same one, the
/// table holds at most one entry per key.
pub proof fn lemma_requested_unique(table: Seq<EntryView>, keys: Seq<KeyView>)
    requires
        unique_keys(table),
    ensures
        unique_keys(requested(table, keys)),
    decreases keys.len(),
{
    if keys.len() > 0 {
        lemma_requested_unique(table, keys.drop_last());
        lemma_inserted_unique(requested(table, keys.drop_last()), keys.last(), None);
    }
}

/// A key that is requested is in the table afterwards, and a key that was
/// in the table stays in it.
pub proof fn lemma_requested_has_keys(table: Seq<EntryView>, keys: Seq<KeyView>, key: KeyView)
    requires
        has_key(table, key) || keys.contains(key),
    ensures
        has_key(requested(table, keys), key),
    decreases keys.len(),
{
    if keys.len() == 0 {
    } else {
        let front = requested(table, keys.drop_last());
        let after = inserted(front, keys.last(), None);
        if keys.last() == key {
            if !has_key(front, key) {
                assert(after[front.len() as int].0 == key);
            }
        } else {
            if !has_key(table, key) {
                let i = choose|i: int| 0 <= i < keys.len() && keys[i] == key;
                assert(keys.drop_last()[i] == key);
            }
            lemma_requested_has_keys(table, keys.drop_last(), key);
            let j = choose|j: int| 0 <= j < front.len() && #[trigger] front[j].0 == key;
            assert(after[j].0 == key);
        }
    }
}

/// Two calls of one top-level symbol with arguments of the same layouts,
/// neither a jump, request one and the same key; after both, the table
/// holds exactly one entry under it, and the second call adds nothing.
pub proof fn lemma_same_specialization_once(
    table: Seq<EntryView>,
    symbol: Symbol,
    first: Seq<(ExprView, Shape)>,
    second: Seq<(ExprView, Shape)>,
    u1: Uniqueness,
    u2: Uniqueness,
)
    requires
        unique_keys(table),
        !symbol.is_builtin(),
        arg_shapes(first) == arg_shapes(second),
    ensures
        ({
            let key = KeyView { symbol, args: arg_shapes(first) };
            let k1 = Seq::<KeyView>::empty().push(key);
            let after_first = requested(table, k1);
            let after_both = requested(after_first, k1);
            &&& lowered_call(symbol, first, u1, None) == Ok::<_, LowerError>(
                (ExprView::CallByName(symbol, first), k1),
            )
            &&& lowered_call(symbol, second, u2, None) == Ok::<_, LowerError>(
                (ExprView::CallByName(symbol, second), k1),
            )
            &&& after_both == after_first
            &&& has_key(after_both, key)
            &&& forall|i: int, j: int|
                0 <= i < after_both.len() && 0 <= j < after_both.len() && (
                #[trigger] after_both[i]).0 == key && (#[trigger] after_both[j]).0 == key ==> i
                    == j
        }),
{
    let key = KeyView { symbol, args: arg_shapes(first) };
    let k1 = Seq::<KeyView>::empty().push(key);
    assert(k1.drop_last() =~= Seq::<KeyView>::empty());
    assert(k1.last() == key);
    let after_first = requested(table, k1);
    assert(requested(table, k1.drop_last()) == table);
    assert(after_first == inserted(table, key, None));
    lemma_inserted_unique(table, key, None);
    assert(requested(after_first, k1.drop_last()) == after_first);
    let after_both = requested(after_first, k1);
    assert(after_both == inserted(after_first, key, None));
    assert forall|i: int, j: int|
        0 <= i < after_both.len() && 0 <= j < after_both.len() && (#[trigger] after_both[i]).0
            == key && (#[trigger] after_both[j]).0 == key implies i == j by {
        if i < j {
            assert(after_both[i].0 != after_both[j].0);
        } else if j < i {
            assert(after_both[j].0 != after_both[i].0);
        }
    }
}

/// The element update resolves to its in-place variant exactly where the
/// updated list is unique, and stays the pure update wherever it is shared.
pub proof fn lemma_in_place_iff_unique(args: Seq<(ExprView, Shape)>, uniq: Uniqueness)
    requires
        fits_set(args),
    ensures
        (resolved(list_symbol(LIST_SET), args, uniq) == Ok::<Symbol, LowerError>(
            list_symbol(LIST_SET_IN_PLACE),
        )) <==> uniq == Uniqueness::Unique,
        (resolved(list_symbol(LIST_SET), args, uniq) == Ok::<Symbol, LowerError>(
            list_symbol(LIST_SET),
        )) <==> uniq == Uniqueness::Shared,
{
}

/// A call of the element update, where it lowers at all, lowers to a call
/// by name of the in-place update if the fact at its first argument is
/// unique, and of the pure update if not; the arguments are the lowered
/// arguments either way.
pub proof fn lemma_update_call_follows_uniqueness(
    subs: Seq<Content>,
    tail: Option<KeyView>,
    unique: Seq<Symbol>,
    args: Vec<(Variable, CanExpr)>,
)
    ensures
        ({
            let node = CanExpr::Call { symbol: list_symbol(LIST_SET), args };
            lowered_in(subs, node, tail, unique) matches Ok(p) ==> (lowered_typed(
                subs,
                args@,
                unique,
            ) matches Ok(t) && p.1 == t.1 && p.0 == ExprView::CallByName(
                if first_fact(unique, args@) == Uniqueness::Unique {
                    list_symbol(LIST_SET_IN_PLACE)
                } else {
                    list_symbol(LIST_SET)
                },
                t.0,
            ))
        }),
{
    let node = CanExpr::Call { symbol: list_symbol(LIST_SET), args };
    if lowered_in(subs, node, tail, unique) is Ok {
        let t = lowered_typed(subs, args@, unique)->Ok_0;
        assert(t.1 + Seq::<KeyView>::empty() =~= t.1);
    }
}

/// A fresh value is unique where it is used, and so is, in the body of its
/// binding, a binding of a fresh value that the body reads at most once.
pub proof fn lemma_fresh_value_is_unique(
    unique: Seq<Symbol>,
    symbol: Symbol,
    value: CanExpr,
    body: CanExpr,
)
    requires
        is_fresh(value),
    ensures
        fact_of(unique, value) == Uniqueness::Unique,
        reads(body, symbol) <= 1 ==> fact_of(bound(unique, symbol, value, body), CanExpr::Var(symbol))
            == Uniqueness::Unique,
{
    if reads(body, symbol) <= 1 {
        let inner = bound(unique, symbol, value, body);
        assert(inner[unique.len() as int] == symbol);
    }
}

/// A binding that its body reads twice or more, or whose value is not
/// fresh, is shared in that body, unless an enclosing scope holds it as
/// unique; and a binding that no scope holds as unique is shared.
pub proof fn lemma_binding_read_again_is_shared(
    unique: Seq<Symbol>,
    symbol: Symbol,
    value: CanExpr,
    body: CanExpr,
)
    requires
        !unique.contains(symbol),
    ensures
        fact_of(unique, CanExpr::Var(symbol)) == Uniqueness::Shared,
        !binds_unique(symbol, value, body) ==> fact_of(
            bound(unique, symbol, value, body),
            CanExpr::Var(symbol),
        ) == Uniqueness::Shared,
        reads(body, symbol) >= 2 ==> !binds_unique(symbol, value, body),
{
}

/// Whether the fields stand in ascending order of label.
pub open spec fn in_label_order(fields: Seq<Field>) -> bool {
    forall|i: int, j: int| 0 <= i < j < fields.len() ==> fields[i].0 <= fields[j].0
}

/// Putting a field in its place keeps the order, and adds that field only.
pub proof fn lemma_placed_keeps_order(sorted: Seq<Field>, field: Field)
    requires
        in_label_order(sorted),
    ensures
        in_label_order(placed(sorted, field)),
        placed(sorted, field).len() == sorted.len() + 1,
        forall|k: int|
            0 <= k < placed(sorted, field).len() ==> #[trigger] placed(sorted, field)[k] == field
                || sorted.contains(placed(sorted, field)[k]),
    decreases sorted.len(),
{
    let r = placed(sorted, field);
    if sorted.len() == 0 || sorted.last().0 <= field.0 {
        assert forall|k: int| 0 <= k < r.len() implies #[trigger] r[k] == field || sorted.contains(
            r[k],
        ) by {
            if k < sorted.len() {
                assert(sorted[k] == r[k]);
            }
        }
    } else {
        let front = sorted.drop_last();
        let t = placed(front, field);
        lemma_placed_keeps_order(front, field);
        assert forall|k: int| 0 <= k < t.len() implies (#[trigger] t[k]).0 <= sorted.last().0 by {
            if t[k] != field {
                let j = choose|j: int| 0 <= j < front.len() && front[j] == t[k];
                assert(sorted[j] == t[k]);
            }
        }
        assert forall|k: int| 0 <= k < r.len() implies #[trigger] r[k] == field || sorted.contains(
            r[k],
        ) by {
            if k < t.len() {
                assert(r[k] == t[k]);
                if t[k] != field {
                    let j = choose|j: int| 0 <= j < front.len() && front[j] == t[k];
                    assert(sorted[j] == r[k]);
                }
            } else {
                assert(sorted[sorted.len() - 1] == r[k]);
            }
        }
        assert forall|i: int, j: int| 0 <= i < j < r.len() implies r[i].0 <= r[j].0 by {
            if j < t.len() {
                assert(r[i] == t[i] && r[j] == t[j]);
            } else {
                assert(r[i] == t[i]);
            }
        }
    }
}

/// The fields of a record's layout stand in ascending order of label,
/// in whatever order the record lists them; where no label comes twice,
/// in strictly ascending order.
pub proof fn lemma_fields_stand_in_label_order(labels: Seq<u32>, fields: Seq<Variable>, n: nat)
    ensures
        by_label(labels, fields, n).len() == n,
        in_label_order(by_label(labels, fields, n)),
        !has_repeat(by_label(labels, fields, n)) ==> forall|i: int, j: int|
            0 <= i < j < n ==> by_label(labels, fields, n)[i].0 < by_label(labels, fields, n)[j].0,
    decreases n,
{
    let r = by_label(labels, fields, n);
    if n > 0 {
        lemma_fields_stand_in_label_order(labels, fields, (n - 1) as nat);
        lemma_placed_keeps_order(
            by_label(labels, fields, (n - 1) as nat),
            (labels[n - 1], fields[n - 1]),
        );
    }
    if !has_repeat(r) {
        assert forall|i: int, j: int| 0 <= i < j < n implies r[i].0 < r[j].0 by {
            assert(r[i].0 <= r[j - 1].0 || i == j - 1);
            assert(r[j - 1].0 != r[j - 1 + 1].0);
            assert(r[j - 1].0 <= r[j].0);
        }
    }
}

/// Whether the fields stand in strictly ascending order of label.
pub open spec fn in_strict_label_order(fields: Seq<Field>) -> bool {
    forall|i: int, j: int| 0 <= i < j < fields.len() ==> fields[i].0 < fields[j].0
}

/// Every field that went in is among the placed ones.
pub proof fn lemma_placed_holds_all(sorted: Seq<Field>, field: Field)
    ensures
        placed(sorted, field).contains(field),
        forall|x: Field| sorted.contains(x) ==> placed(sorted, field).contains(x),
    decreases sorted.len(),
{
    let r = placed(sorted, field);
    if sorted.len() == 0 || sorted.last().0 <= field.0 {
        assert(r[sorted.len() as int] == field);
        assert forall|x: Field| sorted.contains(x) implies r.contains(x) by {
            let j = choose|j: int| 0 <= j < sorted.len() && sorted[j] == x;
            assert(r[j] == x);
        }
    } else {
        let front = sorted.drop_last();
        let t = placed(front, field);
        lemma_placed_holds_all(front, field);
        let k = choose|k: int| 0 <= k < t.len() && t[k] == field;
        assert(r[k] == field);
        assert forall|x: Field| sorted.contains(x) implies r.contains(x) by {
            let j = choose|j: int| 0 <= j < sorted.len() && sorted[j] == x;
            if j == sorted.len() - 1 {
                assert(r[t.len() as int] == x);
            } else {
                assert(front[j] == x);
                assert(front.contains(x));
                assert(t.contains(x));
                let m = choose|m: int| 0 <= m < t.len() && t[m] == x;
                assert(r[m] == x);
            }
        }
    }
}

/// The fields in label order are the fields that the record lists.
pub proof fn lemma_by_label_holds_the_fields(
    labels: Seq<u32>,
    fields: Seq<Variable>,
    n: nat,
    x: Field,
)
    requires
        n <= labels.len(),
        n <= fields.len(),
    ensures
        by_label(labels, fields, n).contains(x) <==> exists|i: int|
            0 <= i < n && x == (#[trigger] labels[i], fields[i]),
    decreases n,
{
    if n > 0 {
        let before = by_label(labels, fields, (n - 1) as nat);
        let last = (labels[n - 1], fields[n - 1]);
        lemma_by_label_holds_the_fields(labels, fields, (n - 1) as nat, x);
        lemma_fields_stand_in_label_order(labels, fields, (n - 1) as nat);
        lemma_placed_keeps_order(before, last);
        lemma_placed_holds_all(before, last);
        let r = by_label(labels, fields, n);
        if r.contains(x) {
            let k = choose|k: int| 0 <= k < r.len() && r[k] == x;
            if r[k] == last {
                assert(x == (labels[n - 1], fields[n - 1]));
            } else {
                assert(before.contains(x));
                let i = choose|i: int| 0 <= i < n - 1 && x == (#[trigger] labels[i], fields[i]);
                assert(x == (labels[i], fields[i]));
            }
        }
        if exists|i: int| 0 <= i < n && x == (#[trigger] labels[i], fields[i]) {
            let i = choose|i: int| 0 <= i < n && x == (#[trigger] labels[i], fields[i]);
            if i < n - 1 {
                assert(before.contains(x));
            }
        }
    }
}

/// Fields in strictly ascending order of label are told by what they
/// hold: two such sequences of the same fields are equal.
pub proof fn lemma_label_order_is_one(a: Seq<Field>, b: Seq<Field>)
    requires
        in_strict_label_order(a),
        in_strict_label_order(b),
        forall|x: Field| a.contains(x) <==> b.contains(x),
    ensures
        a == b,
    decreases a.len(),
{
    if a.len() == 0 {
        if b.len() > 0 {
            assert(b.contains(b[0]));
        }
        assert(a =~= b);
    } else {
        assert(a.contains(a.last()));
        let j = choose|j: int| 0 <= j < b.len() && b[j] == a.last();
        assert(b.contains(b.last()));
        let i = choose|i: int| 0 <= i < a.len() && a[i] == b.last();
        assert(i == a.len() - 1);
        assert(j == b.len() - 1);
        let fa = a.drop_last();
        let fb = b.drop_last();
        assert forall|x: Field| fa.contains(x) <==> fb.contains(x) by {
            if fa.contains(x) {
                let k = choose|k: int| 0 <= k < fa.len() && fa[k] == x;
                assert(a[k] == x);
                assert(b.contains(x));
                let m = choose|m: int| 0 <= m < b.len() && b[m] == x;
                assert(m != b.len() - 1);
                assert(fb[m] == x);
            }
            if fb.contains(x) {
                let k = choose|k: int| 0 <= k < fb.len() && fb[k] == x;
                assert(b[k] == x);
                assert(a.contains(x));
                let m = choose|m: int| 0 <= m < a.len() && a[m] == x;
                assert(m != a.len() - 1);
                assert(fa[m] == x);
            }
        }
        lemma_label_order_is_one(fa, fb);
        assert(a =~= fa.push(a.last()));
        assert(b =~= fb.push(b.last()));
    }
}

/// Two records that list the same fields, each label once, in whatever
/// order, have their fields in the same order in their layouts.
pub proof fn lemma_field_order_ignores_the_listing(
    labels: Seq<u32>,
    fields: Seq<Variable>,
    other_labels: Seq<u32>,
    other_fields: Seq<Variable>,
)
    requires
        labels.len() == fields.len(),
        other_labels.len() == other_fields.len(),
        !has_repeat(by_label(labels, fields, labels.len())),
        !has_repeat(by_label(other_labels, other_fields, other_labels.len())),
        forall|i: int|
            0 <= i < labels.len() ==> exists|j: int|
                0 <= j < other_labels.len() && (#[trigger] labels[i], fields[i]) == (
                    #[trigger] other_labels[j],
                    other_fields[j],
                ),
        forall|j: int|
            0 <= j < other_labels.len() ==> exists|i: int|
                0 <= i < labels.len() && (#[trigger] labels[i], fields[i]) == (
                    #[trigger] other_labels[j],
                    other_fields[j],
                ),
    ensures
        by_label(labels, fields, labels.len()) == by_label(
            other_labels,
            other_fields,
            other_labels.len(),
        ),
{
    let a = by_label(labels, fields, labels.len());
    let b = by_label(other_labels, other_fields, other_labels.len());
    lemma_fields_stand_in_label_order(labels, fields, labels.len());
    lemma_fields_stand_in_label_order(other_labels, other_fields, other_labels.len());
    assert forall|x: Field| a.contains(x) <==> b.contains(x) by {
        lemma_by_label_holds_the_fields(labels, fields, labels.len(), x);
        lemma_by_label_holds_the_fields(other_labels, other_fields, other_labels.len(), x);
        if a.contains(x) {
            let i = choose|i: int| 0 <= i < labels.len() && x == (#[trigger] labels[i], fields[i]);
            let j = choose|j: int|
                0 <= j < other_labels.len() && (labels[i], fields[i]) == (
                    #[trigger] other_labels[j],
                    other_fields[j],
                );
            assert(x == (other_labels[j], other_fields[j]));
        }
        if b.contains(x) {
            let j = choose|j: int|
                0 <= j < other_labels.len() && x == (#[trigger] other_labels[j], other_fields[j]);
            let i = choose|i: int|
                0 <= i < labels.len() && (#[trigger] labels[i], fields[i]) == (
                    other_labels[j],
                    other_fields[j],
                );
            assert(x == (labels[i], fields[i]));
        }
    }
    lemma_label_order_is_one(a, b);
}

/// Two resolutions of one variable's type agree: both fail with the same
/// error, or both give layouts of the same shape.
pub proof fn lemma_layout_is_determined(
    subs: Seq<Content>,
    var: Variable,
    first: Result<Layout, LayoutError>,
    second: Result<Layout, LayoutError>,
)
    requires
        resolves(first, shape_of(subs, var)),
        resolves(second, shape_of(subs, var)),
    ensures
        match (first, second) {
            (Ok(a), Ok(b)) => a.shape() == b.shape(),
            (Err(a), Err(b)) => a == b,
            _ => false,
        },
{
}

/// A conditional of two arms, where it lowers at all, lowers to the
/// two-armed branch node.
pub proof fn lemma_if_lowers_to_cond(
    subs: Seq<Content>,
    tail: Option<KeyView>,
    cond_var: Variable,
    ret_var: Variable,
    cond: CanExpr,
    pass: CanExpr,
    fail: CanExpr,
)
    ensures
        ({
            let node = CanExpr::If {
                cond_var,
                ret_var,
                cond: Box::new(cond),
                pass: Box::new(pass),
                fail: Box::new(fail),
            };
            lowered(subs, node, tail) matches Ok(p) ==> p.0 is Cond
        }),
{
}

/// A multi-way conditional, where it lowers at all, lowers to a switch if
/// its scrutinee has a dense discriminant, and to guarded branches if not.
pub proof fn lemma_when_lowers_by_scrutinee(
    subs: Seq<Content>,
    tail: Option<KeyView>,
    cond_var: Variable,
    ret_var: Variable,
    cond: CanExpr,
    branches: Vec<(Pattern, CanExpr)>,
    default: CanExpr,
)
    ensures
        ({
            let node = CanExpr::When {
                cond_var,
                ret_var,
                cond: Box::new(cond),
                branches,
                default: Box::new(default),
            };
            lowered(subs, node, tail) matches Ok(p) ==> (layout_shape(subs, cond_var) matches Ok(
                cl,
            ) && if is_dense(cl) {
                p.0 is Switch
            } else {
                p.0 is Branches
            })
        }),
{
}

/// An error that was found before lowering never stops it: the node lowers
/// to one error-signaling node with the same report, and among siblings it
/// adds that one node and leaves what the others lower to as it is.
pub proof fn lemma_deferred_error_is_contained(
    subs: Seq<Content>,
    tail: Option<KeyView>,
    siblings: Seq<CanExpr>,
    report: String,
)
    ensures
        lowered(subs, CanExpr::RuntimeError(report), tail) == Ok::<_, LowerError>(
            (ExprView::RuntimeError(report@), Seq::<KeyView>::empty()),
        ),
        lowered_all(subs, siblings.push(CanExpr::RuntimeError(report)), Seq::empty()) == (match lowered_all(
            subs,
            siblings,
            Seq::empty(),
        ) {
            Ok(p) => Ok((p.0.push(ExprView::RuntimeError(report@)), p.1)),
            Err(e) => Err(e),
        }),
{
    let all = siblings.push(CanExpr::RuntimeError(report));
    assert(all.drop_last() =~= siblings);
    assert(all.last() == CanExpr::RuntimeError(report));
    assert(all.len() > 0);
    assert(lowered_in(subs, all.last(), None, Seq::empty()) == Ok::<_, LowerError>(
        (ExprView::RuntimeError(report@), Seq::<KeyView>::empty()),
    ));
    assert(lowered_all(subs, all.drop_last(), Seq::empty()) == lowered_all(subs, siblings, Seq::empty()));
    match lowered_all(subs, siblings, Seq::empty()) {
        Ok(p) => {
            assert(p.1 + Seq::<KeyView>::empty() =~= p.1);
            assert(lowered_all(subs, all, Seq::empty()) == Ok::<_, LowerError>(
                (p.0.push(ExprView::RuntimeError(report@)), p.1 + Seq::<KeyView>::empty()),
            ));
        },
        Err(e) => {
            assert(lowered_all(subs, all, Seq::empty()) == Err::<(Seq<ExprView>, Seq<KeyView>), _>(e));
        },
    }
}

} // verus!
