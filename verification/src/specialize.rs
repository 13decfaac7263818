//! Specialization: lowering the body of a definition for one set of
//! argument layouts, once.

use vstd::prelude::*;
use crate::builtin::LowerError;
use crate::can::Definition;
use crate::layout::{Layout, Shape, shapes};
use crate::lower::{fails, layout, layout_shape, lower, lowered};
use crate::procs::{
    EntryView,
    KeyView,
    Proc,
    ProcKey,
    ProcView,
    Procs,
    filled_in,
    has_key,
    inserted,
    is_filled,
    lemma_inserted_unique,
    lemma_requested_keeps,
    requested,
    unique_keys,
};
use crate::subs::{Content, Subs};
use crate::symbol::Symbol;

verus! {

/// The procedure that a definition lowers to for argument layouts of the
/// given shapes, and the keys that its body requests. Calls of the same
/// specialization from the tail position of the body are jumps.
pub open spec fn specialized(subs: Seq<Content>, def: Definition, args: Seq<Shape>) -> Result<
    (ProcView, Seq<KeyView>),
    LowerError,
> {
    if def.params@.len() != args.len() {
        Err(LowerError::Arity(def.symbol))
    } else {
        match lowered(subs, def.body, Some(KeyView { symbol: def.symbol, args })) {
            Err(e) => Err(e),
            Ok((body, keys)) => match layout_shape(subs, def.ret_var) {
                Err(e) => Err(e),
                Ok(ret_layout) => Ok(
                    (
                        ProcView {
                            params: Seq::new(args.len(), |i: int| (def.params@[i], args[i])),
                            body,
                            ret_layout,
                        },
                        keys,
                    ),
                ),
            },
        }
    }
}

/// Pairs each parameter with the layout of its argument.
fn typed_params(params: &Vec<Symbol>, args: &Vec<Layout>) -> (r: Vec<(Symbol, Layout)>)
    requires
        params.len() == args.len(),
    ensures
        r@.len() == params.len(),
        forall|i: int|
            0 <= i < r@.len() ==> r@[i].0 == params@[i] && r@[i].1.shape() == args@[i].shape(),
{
    let mut out: Vec<(Symbol, Layout)> = Vec::new();
    let mut i: usize = 0;
    while i < params.len()
        invariant
            i <= params.len(),
            params.len() == args.len(),
            out.len() == i,
            forall|j: int|
                0 <= j < i ==> out@[j].0 == params@[j] && out@[j].1.shape() == args@[j].shape(),
        decreases params.len() - i,
    {
        out.push((params[i], args[i].copy()));
        i += 1;
    }
    out
}

/// Lowers a definition for one set of argument layouts and enters the
/// procedure in the table, unless the table holds it already.
///
/// The entry is made as pending before the body is lowered, so that the
/// body's calls of the same specialization find it. Returns whether the
/// procedure was lowered now: `false`, and the table unchanged, where the
/// table held it already. Fails where the number of layouts is not the
/// number of parameters, and where lowering the body or resolving the
/// result's layout fails.
pub fn lower_procedure(subs: &Subs, def: &Definition, args: Vec<Layout>, procs: &mut Procs) -> (r:
    Result<bool, LowerError>)
    requires
        old(procs).wf(),
    ensures
        final(procs).wf(),
        match r {
            Ok(lowered_now) => {
                let key = KeyView { symbol: def.symbol, args: shapes(args@) };
                &&& def.params@.len() == args@.len()
                &&& lowered_now == !is_filled(old(procs)@, key)
                &&& !lowered_now ==> final(procs)@ == old(procs)@
                &&& lowered_now ==> (specialized(subs@, *def, shapes(args@)) matches Ok(p)
                    && filled_in(
                    requested(inserted(old(procs)@, key, None), p.1),
                    key,
                    p.0,
                    final(procs)@,
                ))
            },
            Err(x) => (def.params@.len() == args@.len() ==> !is_filled(
                old(procs)@,
                KeyView { symbol: def.symbol, args: shapes(args@) },
            )) && fails(specialized(subs@, *def, shapes(args@)), x),
        },
{
    if def.params.len() != args.len() {
        proof {
            assert(shapes(args@).len() == args@.len());
        }
        return Err(LowerError::Arity(def.symbol));
    }
    let params = typed_params(&def.params, &args);
    let key = ProcKey { symbol: def.symbol, args };
    proof {
        assert(shapes(key.args@).len() == key.args@.len());
    }
    if procs.is_complete(&key) {
        return Ok(false);
    }
    let ghost start = procs@;
    procs.insert_if_absent(key.copy(), None);
    let body = match lower(subs, &def.body, procs, Some(&key)) {
        Ok(b) => b,
        Err(e) => return Err(e),
    };
    let ret_layout = match layout(subs, def.ret_var) {
        Ok(l) => l,
        Err(e) => return Err(e),
    };
    let procedure = Proc { params, body, ret_layout };
    proof {
        let want = specialized(subs@, *def, shapes(key.args@));
        assert(want is Ok);
        assert(procedure@.params =~= want->Ok_0.0.params);
        lemma_pending_after_request(start, key@, want->Ok_0.1);
    }
    let done = procs.complete(&key, procedure);
    Ok(done)
}

/// Where the table holds no lowered procedure under a key, the key's entry
/// is pending once it has been inserted as pending, whatever is requested
/// after that.
pub proof fn lemma_pending_after_request(table: Seq<EntryView>, key: KeyView, keys: Seq<KeyView>)
    requires
        unique_keys(table),
        !is_filled(table, key),
    ensures
        exists|i: int|
            0 <= i < requested(inserted(table, key, None), keys).len() && #[trigger] requested(
                inserted(table, key, None),
                keys,
            )[i] == (key, None::<ProcView>),
{
    let t1 = inserted(table, key, None);
    lemma_inserted_unique(table, key, None);
    let i = choose|i: int| 0 <= i < t1.len() && #[trigger] t1[i].0 == key;
    if has_key(table, key) {
        assert(t1[i].1 is None);
    } else {
        if i < table.len() {
            assert(table[i].0 == key);
        }
        assert(t1[i] == (key, None::<ProcView>));
    }
    assert(t1[i] == (key, None::<ProcView>));
    lemma_requested_keeps(t1, keys, i);
}

} // verus!
