//! How often a binding is read, and what that says of its uniqueness.

use vstd::prelude::*;
use crate::can::{CanExpr, Pattern};
use crate::subs::Variable;
use crate::symbol::{Symbol, list_symbol, LIST_SET, LIST_SET_IN_PLACE};

verus! {

/// Whether other live references to a value may exist.
#[derive(Clone, Copy, Debug, PartialEq, Eq, Structural)]
pub enum Uniqueness {
    /// No other live reference exists at this use or after it.
    Unique,
    /// Another reference may exist, or the value is read again later.
    Shared,
}

/// The number of reads of a symbol in a node.
pub open spec fn reads(can: CanExpr, s: Symbol) -> nat
    decreases can,
{
    match can {
        CanExpr::Var(x) => if x == s {
            1
        } else {
            0
        },
        CanExpr::List { elem_var, elems } => reads_all(elems@, s),
        CanExpr::Let { symbol, var, value, body } => reads(*value, s) + reads(*body, s),
        CanExpr::Call { symbol, args } => reads_typed(args@, s),
        CanExpr::CallValue { fn_var, func, args } => reads(*func, s) + reads_all(args@, s),
        CanExpr::If { cond_var, ret_var, cond, pass, fail } => reads(*cond, s) + reads(*pass, s)
            + reads(*fail, s),
        CanExpr::When { cond_var, ret_var, cond, branches, default } => reads(*cond, s)
            + reads_arms(branches@, s) + reads(*default, s),
        CanExpr::Record(fields) => reads_typed(fields@, s),
        CanExpr::Access { record_var, field_var, label, record } => reads(*record, s),
        CanExpr::Tag { union_var, tag_id, args } => reads_typed(args@, s),
        _ => 0,
    }
}

/// The number of reads of a symbol in a sequence of nodes.
pub open spec fn reads_all(cans: Seq<CanExpr>, s: Symbol) -> nat
    decreases cans,
{
    if cans.len() == 0 {
        0
    } else {
        reads_all(cans.drop_last(), s) + reads(cans.last(), s)
    }
}

/// The number of reads of a symbol in a sequence of typed nodes.
pub open spec fn reads_typed(cans: Seq<(Variable, CanExpr)>, s: Symbol) -> nat
    decreases cans,
{
    if cans.len() == 0 {
        0
    } else {
        reads_typed(cans.drop_last(), s) + reads(cans.last().1, s)
    }
}

/// The number of reads of a symbol in the values of a sequence of arms.
pub open spec fn reads_arms(arms: Seq<(Pattern, CanExpr)>, s: Symbol) -> nat
    decreases arms,
{
    if arms.len() == 0 {
        0
    } else {
        reads_arms(arms.drop_last(), s) + reads(arms.last().1, s)
    }
}

/// A count as far as it matters: 0, 1, or 2 for two and more.
pub open spec fn capped(n: nat) -> u8 {
    if n >= 2 {
        2
    } else {
        n as u8
    }
}

fn join(a: u8, b: u8) -> (r: u8)
    requires
        a <= 2,
        b <= 2,
    ensures
        r == capped((a + b) as nat),
{
    if a + b >= 2 {
        2
    } else {
        a + b
    }
}

fn count_reads_all(cans: &Vec<CanExpr>, s: Symbol) -> (n: u8)
    ensures
        n == capped(reads_all(cans@, s)),
    decreases *cans,
{
    let mut acc: u8 = 0;
    let mut i: usize = 0;
    proof {
        assert(cans@.take(0) =~= Seq::empty());
    }
    while i < cans.len()
        invariant
            i <= cans.len(),
            acc == capped(reads_all(cans@.take(i as int), s)),
        decreases cans.len() - i,
    {
        proof {
            assert(cans@.take(i + 1).drop_last() =~= cans@.take(i as int));
            assert(cans@.take(i + 1).last() == cans@[i as int]);
        }
        acc = join(acc, count_reads(&cans[i], s));
        i += 1;
    }
    proof {
        assert(cans@.take(cans.len() as int) =~= cans@);
    }
    acc
}

fn count_reads_typed(cans: &Vec<(Variable, CanExpr)>, s: Symbol) -> (n: u8)
    ensures
        n == capped(reads_typed(cans@, s)),
    decreases *cans,
{
    let mut acc: u8 = 0;
    let mut i: usize = 0;
    proof {
        assert(cans@.take(0) =~= Seq::empty());
    }
    while i < cans.len()
        invariant
            i <= cans.len(),
            acc == capped(reads_typed(cans@.take(i as int), s)),
        decreases cans.len() - i,
    {
        proof {
            assert(cans@.take(i + 1).drop_last() =~= cans@.take(i as int));
            assert(cans@.take(i + 1).last() == cans@[i as int]);
        }
        acc = join(acc, count_reads(&cans[i].1, s));
        i += 1;
    }
    proof {
        assert(cans@.take(cans.len() as int) =~= cans@);
    }
    acc
}

fn count_reads_arms(arms: &Vec<(Pattern, CanExpr)>, s: Symbol) -> (n: u8)
    ensures
        n == capped(reads_arms(arms@, s)),
    decreases *arms,
{
    let mut acc: u8 = 0;
    let mut i: usize = 0;
    proof {
        assert(arms@.take(0) =~= Seq::empty());
    }
    while i < arms.len()
        invariant
            i <= arms.len(),
            acc == capped(reads_arms(arms@.take(i as int), s)),
        decreases arms.len() - i,
    {
        proof {
            assert(arms@.take(i + 1).drop_last() =~= arms@.take(i as int));
            assert(arms@.take(i + 1).last() == arms@[i as int]);
        }
        acc = join(acc, count_reads(&arms[i].1, s));
        i += 1;
    }
    proof {
        assert(arms@.take(arms.len() as int) =~= arms@);
    }
    acc
}

/// Counts the reads of a symbol in a node: 0, 1, or 2 for two and more.
pub fn count_reads(can: &CanExpr, s: Symbol) -> (n: u8)
    ensures
        n == capped(reads(*can, s)),
    decreases *can,
{
    match can {
        CanExpr::Var(x) => if *x == s {
            1
        } else {
            0
        },
        CanExpr::List { elem_var: _, elems } => count_reads_all(elems, s),
        CanExpr::Let { symbol: _, var: _, value, body } => join(
            count_reads(value, s),
            count_reads(body, s),
        ),
        CanExpr::Call { symbol: _, args } => count_reads_typed(args, s),
        CanExpr::CallValue { fn_var: _, func, args } => join(
            count_reads(func, s),
            count_reads_all(args, s),
        ),
        CanExpr::If { cond_var: _, ret_var: _, cond, pass, fail } => join(
            join(count_reads(cond, s), count_reads(pass, s)),
            count_reads(fail, s),
        ),
        CanExpr::When { cond_var: _, ret_var: _, cond, branches, default } => join(
            join(count_reads(cond, s), count_reads_arms(branches, s)),
            count_reads(default, s),
        ),
        CanExpr::Record(fields) => count_reads_typed(fields, s),
        CanExpr::Access { record_var: _, field_var: _, label: _, record } => count_reads(record, s),
        CanExpr::Tag { union_var: _, tag_id: _, args } => count_reads_typed(args, s),
        _ => 0,
    }
}

/// Whether a node makes a value that nothing else refers to: a list
/// literal, or the result of an element update.
pub open spec fn is_fresh(can: CanExpr) -> bool {
    match can {
        CanExpr::List { elem_var, elems } => true,
        CanExpr::Call { symbol, args } => symbol == list_symbol(LIST_SET) || symbol == list_symbol(
            LIST_SET_IN_PLACE,
        ),
        _ => false,
    }
}

/// Whether a node makes a value that nothing else refers to.
pub fn makes_fresh(can: &CanExpr) -> (r: bool)
    ensures
        r == is_fresh(*can),
{
    match can {
        CanExpr::List { elem_var: _, elems: _ } => true,
        CanExpr::Call { symbol, args: _ } => *symbol == Symbol::list(LIST_SET) || *symbol
            == Symbol::list(LIST_SET_IN_PLACE),
        _ => false,
    }
}

/// Whether a binding is unique: its value is fresh, and the body that sees
/// it reads it at most once.
pub open spec fn binds_unique(symbol: Symbol, value: CanExpr, body: CanExpr) -> bool {
    is_fresh(value) && reads(body, symbol) <= 1
}

/// The unique bindings that the body of a binding sees.
pub open spec fn bound(unique: Seq<Symbol>, symbol: Symbol, value: CanExpr, body: CanExpr) -> Seq<
    Symbol,
> {
    if binds_unique(symbol, value, body) {
        unique.push(symbol)
    } else {
        unique
    }
}

/// The unique bindings that the body of a binding sees.
pub fn bind(unique: &Vec<Symbol>, symbol: Symbol, value: &CanExpr, body: &CanExpr) -> (r: Vec<Symbol>)
    ensures
        r@ == bound(unique@, symbol, *value, *body),
{
    let mut out: Vec<Symbol> = Vec::new();
    let mut i: usize = 0;
    while i < unique.len()
        invariant
            i <= unique.len(),
            out@ == unique@.take(i as int),
        decreases unique.len() - i,
    {
        out.push(unique[i]);
        i += 1;
        proof {
            assert(out@ =~= unique@.take(i as int));
        }
    }
    proof {
        assert(unique@.take(unique.len() as int) =~= unique@);
    }
    if makes_fresh(value) && count_reads(body, symbol) <= 1 {
        out.push(symbol);
    }
    out
}

/// The uniqueness fact of the value that a node gives, at the place where
/// it is used: unique where the node makes a fresh value, or reads a unique
/// binding; shared wherever that cannot be told.
pub open spec fn fact_of(unique: Seq<Symbol>, can: CanExpr) -> Uniqueness {
    if is_fresh(can) || (can is Var && unique.contains(can->Var_0)) {
        Uniqueness::Unique
    } else {
        Uniqueness::Shared
    }
}

/// The uniqueness fact of the value that a node gives, at the place where
/// it is used.
pub fn fact(unique: &Vec<Symbol>, can: &CanExpr) -> (u: Uniqueness)
    ensures
        u == fact_of(unique@, *can),
{
    if makes_fresh(can) {
        return Uniqueness::Unique;
    }
    match can {
        CanExpr::Var(s) => {
            let mut i: usize = 0;
            while i < unique.len()
                invariant
                    i <= unique.len(),
                    *can == CanExpr::Var(*s),
                    forall|j: int| 0 <= j < i ==> unique@[j] != *s,
                decreases unique.len() - i,
            {
                if unique[i] == *s {
                    proof {
                        assert(unique@[i as int] == *s);
                    }
                    return Uniqueness::Unique;
                }
                i += 1;
            }
            Uniqueness::Shared
        },
        _ => Uniqueness::Shared,
    }
}

} // verus!
