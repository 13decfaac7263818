//! Concrete memory layouts and their resolution from solved types.

use vstd::prelude::*;
use crate::subs::{Content, Subs, Variable};

verus! {

/// How a value is laid out in memory. A layout holds no type variable.
#[derive(Debug, PartialEq, Eq)]
pub enum Layout {
    Int64,
    Float64,
    Bool,
    Byte,
    Str,
    /// A list whose element type was left unconstrained.
    EmptyList,
    /// A list of elements of one layout, behind a pointer-sized handle.
    List(Box<Layout>),
    /// An aggregate; the fields stand in ascending order of their labels.
    Struct(Vec<Layout>),
    /// A tagged union; one struct of fields per arm, in ascending order of tag.
    Union(Vec<Layout>),
    /// A pointer to a function with the given argument and result layouts.
    FunctionPointer(Vec<Layout>, Box<Layout>),
}

/// The mathematical value of a layout.
pub enum Shape {
    Int64,
    Float64,
    Bool,
    Byte,
    Str,
    EmptyList,
    List(Box<Shape>),
    Struct(Seq<Shape>),
    Union(Seq<Shape>),
    FunctionPointer(Seq<Shape>, Box<Shape>),
}

/// The shapes of a sequence of layouts, element by element.
pub open spec fn shapes(ls: Seq<Layout>) -> Seq<Shape>
    decreases ls,
{
    Seq::new(ls.len(), |i: int| if 0 <= i < ls.len() { ls[i].shape() } else { Shape::Int64 })
}

impl Layout {
    /// The mathematical value of this layout.
    pub open spec fn shape(self) -> Shape
        decreases self,
    {
        match self {
            Layout::Int64 => Shape::Int64,
            Layout::Float64 => Shape::Float64,
            Layout::Bool => Shape::Bool,
            Layout::Byte => Shape::Byte,
            Layout::Str => Shape::Str,
            Layout::EmptyList => Shape::EmptyList,
            Layout::List(e) => Shape::List(Box::new(e.shape())),
            Layout::Struct(fs) => Shape::Struct(shapes(fs@)),
            Layout::Union(arms) => Shape::Union(shapes(arms@)),
            Layout::FunctionPointer(args, ret) => Shape::FunctionPointer(
                shapes(args@),
                Box::new(ret.shape()),
            ),
        }
    }
}

/// The number of bytes of the smallest discriminant, of 1, 2, 4 or 8 bytes,
/// that tells the given number of arms apart.
pub open spec fn discriminant_bytes(arms: nat) -> nat {
    if arms <= 0x100 {
        1
    } else if arms <= 0x1_0000 {
        2
    } else if arms <= 0x1_0000_0000 {
        4
    } else {
        8
    }
}

/// Whether two vectors of layouts have the same shapes, element by element.
pub fn same_all(a: &Vec<Layout>, b: &Vec<Layout>) -> (r: bool)
    ensures
        r == (shapes(a@) == shapes(b@)),
    decreases *a,
{
    if a.len() != b.len() {
        proof {
            assert(shapes(a@).len() != shapes(b@).len());
        }
        return false;
    }
    let mut i: usize = 0;
    while i < a.len()
        invariant
            i <= a.len(),
            a.len() == b.len(),
            forall|j: int| 0 <= j < i ==> a@[j].shape() == b@[j].shape(),
        decreases a.len() - i,
    {
        if !a[i].same(&b[i]) {
            proof {
                assert(shapes(a@)[i as int] != shapes(b@)[i as int]);
            }
            return false;
        }
        i += 1;
    }
    proof {
        assert(shapes(a@) =~= shapes(b@));
    }
    true
}

/// A fresh vector of layouts with the shapes of the given one.
pub fn copy_all(ls: &Vec<Layout>) -> (r: Vec<Layout>)
    ensures
        shapes(r@) == shapes(ls@),
    decreases *ls,
{
    let mut out: Vec<Layout> = Vec::new();
    let mut i: usize = 0;
    while i < ls.len()
        invariant
            i <= ls.len(),
            out.len() == i,
            forall|j: int| 0 <= j < i ==> out@[j].shape() == ls@[j].shape(),
        decreases ls.len() - i,
    {
        out.push(ls[i].copy());
        i += 1;
    }
    proof {
        assert(shapes(out@) =~= shapes(ls@));
    }
    out
}

impl Layout {
    /// Structural equality of two layouts.
    pub fn same(&self, other: &Layout) -> (r: bool)
        ensures
            r == (self.shape() == other.shape()),
        decreases *self,
    {
        match (self, other) {
            (Layout::Int64, Layout::Int64) => true,
            (Layout::Float64, Layout::Float64) => true,
            (Layout::Bool, Layout::Bool) => true,
            (Layout::Byte, Layout::Byte) => true,
            (Layout::Str, Layout::Str) => true,
            (Layout::EmptyList, Layout::EmptyList) => true,
            (Layout::List(a), Layout::List(b)) => a.same(b),
            (Layout::Struct(a), Layout::Struct(b)) => same_all(a, b),
            (Layout::Union(a), Layout::Union(b)) => same_all(a, b),
            (Layout::FunctionPointer(a, ra), Layout::FunctionPointer(b, rb)) => {
                same_all(a, b) && ra.same(rb)
            },
            _ => false,
        }
    }

    /// The width in bytes of the discriminant of a union; 0 for a layout
    /// that has none.
    pub fn tag_bytes(&self) -> (w: u8)
        ensures
            w == (match self.shape() {
                Shape::Union(arms) => discriminant_bytes(arms.len()),
                _ => 0,
            }),
    {
        match self {
            Layout::Union(arms) => {
                proof {
                    assert(shapes(arms@).len() == arms@.len());
                }
                let n: u64 = arms.len() as u64;
                if n <= 0x100 {
                    1
                } else if n <= 0x1_0000 {
                    2
                } else if n <= 0x1_0000_0000 {
                    4
                } else {
                    8
                }
            },
            _ => 0,
        }
    }

    /// A fresh layout of the same shape.
    pub fn copy(&self) -> (r: Layout)
        ensures
            r.shape() == self.shape(),
        decreases *self,
    {
        match self {
            Layout::Int64 => Layout::Int64,
            Layout::Float64 => Layout::Float64,
            Layout::Bool => Layout::Bool,
            Layout::Byte => Layout::Byte,
            Layout::Str => Layout::Str,
            Layout::EmptyList => Layout::EmptyList,
            Layout::List(e) => Layout::List(Box::new(e.copy())),
            Layout::Struct(fs) => Layout::Struct(copy_all(fs)),
            Layout::Union(arms) => Layout::Union(copy_all(arms)),
            Layout::FunctionPointer(args, ret) => Layout::FunctionPointer(
                copy_all(args),
                Box::new(ret.copy()),
            ),
        }
    }
}

/// Why a type has no layout.
#[derive(Clone, Copy, Debug, PartialEq, Eq, Structural)]
pub enum LayoutError {
    /// The variable has no concrete resolution: it lies outside the solution,
    /// or was left unconstrained where a concrete type is needed.
    Unresolved(Variable),
    /// The type of this variable breaks the solution's form: it refers to a
    /// variable that does not come before it, or it has a label twice.
    Malformed(Variable),
}

/// A field of a record: its label and the variable of its type.
pub type Field = (u32, Variable);

/// Fields in ascending order of label with one more put in its place:
/// behind the last field whose label is not greater.
pub open spec fn placed(sorted: Seq<Field>, field: Field) -> Seq<Field>
    decreases sorted.len(),
{
    if sorted.len() == 0 || sorted.last().0 <= field.0 {
        sorted.push(field)
    } else {
        placed(sorted.drop_last(), field).push(sorted.last())
    }
}

/// The first `n` fields of a record in ascending order of label.
pub open spec fn by_label(labels: Seq<u32>, fields: Seq<Variable>, n: nat) -> Seq<Field>
    decreases n,
{
    if n == 0 {
        Seq::empty()
    } else {
        placed(by_label(labels, fields, (n - 1) as nat), (labels[n - 1], fields[n - 1]))
    }
}

/// Whether two neighbours carry the same label.
pub open spec fn has_repeat(sorted: Seq<Field>) -> bool {
    exists|k: int| 0 <= k < sorted.len() - 1 && (#[trigger] sorted[k]).0 == sorted[k + 1].0
}

/// The variables of the fields, in order.
pub open spec fn field_vars(sorted: Seq<Field>) -> Seq<Variable> {
    Seq::new(sorted.len(), |i: int| sorted[i].1)
}

/// The shape of the type that a variable was solved to.
pub open spec fn shape_of(subs: Seq<Content>, var: Variable) -> Result<Shape, LayoutError>
    decreases var + 1, 0nat,
{
    if var >= subs.len() {
        Err(LayoutError::Unresolved(var))
    } else {
        match subs[var as int] {
            Content::Flex => Err(LayoutError::Unresolved(var)),
            Content::Int => Ok(Shape::Int64),
            Content::Float => Ok(Shape::Float64),
            Content::Bool => Ok(Shape::Bool),
            Content::Byte => Ok(Shape::Byte),
            Content::Str => Ok(Shape::Str),
            Content::List(elem) => if elem >= var {
                Err(LayoutError::Malformed(var))
            } else if subs[elem as int] is Flex {
                Ok(Shape::EmptyList)
            } else {
                match shape_of(subs, elem) {
                    Ok(s) => Ok(Shape::List(Box::new(s))),
                    Err(e) => Err(e),
                }
            },
            Content::Record { labels, fields } => if labels@.len() != fields@.len() || has_repeat(
                by_label(labels@, fields@, labels@.len()),
            ) {
                Err(LayoutError::Malformed(var))
            } else {
                match shapes_of(
                    subs,
                    field_vars(by_label(labels@, fields@, labels@.len())),
                    var,
                ) {
                    Ok(s) => Ok(Shape::Struct(s)),
                    Err(e) => Err(e),
                }
            },
            Content::TagUnion(arms) => match shapes_of(subs, arms@, var) {
                Ok(s) => Ok(Shape::Union(s)),
                Err(e) => Err(e),
            },
            Content::Func(args, ret) => match shapes_of(subs, args@, var) {
                Ok(s) => if ret < var {
                    match shape_of(subs, ret) {
                        Ok(r) => Ok(Shape::FunctionPointer(s, Box::new(r))),
                        Err(e) => Err(e),
                    }
                } else {
                    Err(LayoutError::Malformed(var))
                },
                Err(e) => Err(e),
            },
        }
    }
}

/// The shapes of the parts of the type of `owner`, in order; the error of
/// the first part that has none.
pub open spec fn shapes_of(subs: Seq<Content>, vars: Seq<Variable>, owner: Variable) -> Result<
    Seq<Shape>,
    LayoutError,
>
    decreases owner, vars.len(),
{
    if vars.len() == 0 {
        Ok(Seq::empty())
    } else {
        match shapes_of(subs, vars.drop_last(), owner) {
            Err(e) => Err(e),
            Ok(front) => if vars.last() >= owner {
                Err(LayoutError::Malformed(owner))
            } else {
                match shape_of(subs, vars.last()) {
                    Ok(s) => Ok(front.push(s)),
                    Err(e) => Err(e),
                }
            },
        }
    }
}

/// Whether a resolved layout, or the error in its place, is what the spec gives.
pub open spec fn resolves(r: Result<Layout, LayoutError>, want: Result<Shape, LayoutError>) -> bool {
    match r {
        Ok(l) => want == Ok::<Shape, LayoutError>(l.shape()),
        Err(e) => want == Err::<Shape, LayoutError>(e),
    }
}

/// Where a field goes among sorted fields: at `at`, if every field from
/// there on has a greater label and the field before has none.
pub proof fn lemma_placed_at(sorted: Seq<Field>, field: Field, at: int)
    requires
        0 <= at <= sorted.len(),
        forall|j: int| at <= j < sorted.len() ==> sorted[j].0 > field.0,
        at > 0 ==> sorted[at - 1].0 <= field.0,
    ensures
        placed(sorted, field) == sorted.insert(at, field),
    decreases sorted.len(),
{
    if at == sorted.len() {
        assert(sorted.insert(at, field) =~= sorted.push(field));
    } else {
        lemma_placed_at(sorted.drop_last(), field, at);
        assert(sorted.drop_last().insert(at, field).push(sorted.last()) =~= sorted.insert(
            at,
            field,
        ));
    }
}

/// The fields of a record in ascending order of label.
fn sort_fields(labels: &Vec<u32>, fields: &Vec<Variable>) -> (r: Vec<Field>)
    requires
        labels.len() == fields.len(),
    ensures
        r@ == by_label(labels@, fields@, labels@.len()),
{
    let mut out: Vec<Field> = Vec::new();
    let mut i: usize = 0;
    while i < labels.len()
        invariant
            i <= labels.len(),
            labels.len() == fields.len(),
            out@ == by_label(labels@, fields@, i as nat),
        decreases labels.len() - i,
    {
        let field: Field = (labels[i], fields[i]);
        let mut at: usize = out.len();
        while at > 0 && out[at - 1].0 > field.0
            invariant
                at <= out.len(),
                forall|j: int| at <= j < out.len() ==> out@[j].0 > field.0,
            decreases at,
        {
            at -= 1;
        }
        proof {
            lemma_placed_at(out@, field, at as int);
        }
        out.insert(at, field);
        i += 1;
    }
    out
}

/// Whether two neighbours carry the same label.
fn repeats(sorted: &Vec<Field>) -> (r: bool)
    ensures
        r == has_repeat(sorted@),
{
    let mut k: usize = 1;
    while k < sorted.len()
        invariant
            1 <= k,
            forall|j: int| 0 <= j < k - 1 && j < sorted.len() - 1 ==> (#[trigger] sorted@[j]).0
                != sorted@[j + 1].0,
        decreases sorted.len() - k,
    {
        if sorted[k - 1].0 == sorted[k].0 {
            proof {
                assert(sorted@[k - 1].0 == sorted@[k - 1 + 1].0);
            }
            return true;
        }
        k += 1;
    }
    false
}

/// The variables of the fields, in order.
fn vars_of(sorted: &Vec<Field>) -> (r: Vec<Variable>)
    ensures
        r@ == field_vars(sorted@),
{
    let mut out: Vec<Variable> = Vec::new();
    let mut i: usize = 0;
    while i < sorted.len()
        invariant
            i <= sorted.len(),
            out.len() == i,
            forall|j: int| 0 <= j < i ==> out@[j] == sorted@[j].1,
        decreases sorted.len() - i,
    {
        out.push(sorted[i].1);
        i += 1;
    }
    proof {
        assert(out@ =~= field_vars(sorted@));
    }
    out
}

/// Resolves the layouts of the parts of the type of `owner`, in order.
pub fn layouts_of(subs: &Subs, vars: &Vec<Variable>, owner: Variable) -> (r: Result<
    Vec<Layout>,
    LayoutError,
>)
    ensures
        match r {
            Ok(ls) => shapes_of(subs@, vars@, owner) == Ok::<Seq<Shape>, LayoutError>(shapes(ls@)),
            Err(e) => shapes_of(subs@, vars@, owner) == Err::<Seq<Shape>, LayoutError>(e),
        },
    decreases owner, vars.len(),
{
    let mut out: Vec<Layout> = Vec::new();
    let mut i: usize = 0;
    proof {
        assert(vars@.take(0) =~= Seq::empty());
        assert(shapes(out@) =~= Seq::empty());
    }
    while i < vars.len()
        invariant
            i <= vars.len(),
            shapes_of(subs@, vars@.take(i as int), owner) == Ok::<Seq<Shape>, LayoutError>(
                shapes(out@),
            ),
        decreases vars.len() - i,
    {
        let v = vars[i];
        proof {
            assert(vars@.take(i + 1).drop_last() =~= vars@.take(i as int));
            assert(vars@.take(i + 1).last() == v);
        }
        if v >= owner {
            proof {
                lemma_shapes_of_error_spreads(subs@, vars@, owner, i + 1);
            }
            return Err(LayoutError::Malformed(owner));
        }
        match layout_of(subs, v) {
            Ok(l) => {
                proof {
                    assert(shapes(out@.push(l)) =~= shapes(out@).push(l.shape()));
                }
                out.push(l);
            },
            Err(e) => {
                proof {
                    lemma_shapes_of_error_spreads(subs@, vars@, owner, i + 1);
                }
                return Err(e);
            },
        }
        i += 1;
    }
    proof {
        assert(vars@.take(vars.len() as int) =~= vars@);
    }
    Ok(out)
}

/// An error among the first `n` parts is the error of the whole.
pub proof fn lemma_shapes_of_error_spreads(
    subs: Seq<Content>,
    vars: Seq<Variable>,
    owner: Variable,
    n: int,
)
    requires
        0 <= n <= vars.len(),
        shapes_of(subs, vars.take(n), owner) is Err,
    ensures
        shapes_of(subs, vars, owner) == shapes_of(subs, vars.take(n), owner),
    decreases vars.len() - n,
{
    if n < vars.len() {
        assert(vars.take(n + 1).drop_last() =~= vars.take(n));
        lemma_shapes_of_error_spreads(subs, vars, owner, n + 1);
    } else {
        assert(vars.take(n) =~= vars);
    }
}

/// Resolves the layout of the type that a variable was solved to.
///
/// Fails with `Unresolved` where the variable, or one that its type is made of,
/// has no concrete type, and with `Malformed` where the solution is out of form.
pub fn layout_of(subs: &Subs, var: Variable) -> (r: Result<Layout, LayoutError>)
    ensures
        resolves(r, shape_of(subs@, var)),
    decreases var + 1, 0nat,
{
    if var >= subs.contents.len() {
        return Err(LayoutError::Unresolved(var));
    }
    match &subs.contents[var] {
        Content::Flex => Err(LayoutError::Unresolved(var)),
        Content::Int => Ok(Layout::Int64),
        Content::Float => Ok(Layout::Float64),
        Content::Bool => Ok(Layout::Bool),
        Content::Byte => Ok(Layout::Byte),
        Content::Str => Ok(Layout::Str),
        Content::List(elem) => {
            if *elem >= var {
                return Err(LayoutError::Malformed(var));
            }
            match &subs.contents[*elem] {
                Content::Flex => Ok(Layout::EmptyList),
                _ => match layout_of(subs, *elem) {
                    Ok(l) => Ok(Layout::List(Box::new(l))),
                    Err(e) => Err(e),
                },
            }
        },
        Content::Record { labels, fields } => {
            if labels.len() != fields.len() {
                return Err(LayoutError::Malformed(var));
            }
            let sorted = sort_fields(labels, fields);
            if repeats(&sorted) {
                return Err(LayoutError::Malformed(var));
            }
            let vars = vars_of(&sorted);
            match layouts_of(subs, &vars, var) {
                Ok(ls) => Ok(Layout::Struct(ls)),
                Err(e) => Err(e),
            }
        },
        Content::TagUnion(arms) => match layouts_of(subs, arms, var) {
            Ok(ls) => Ok(Layout::Union(ls)),
            Err(e) => Err(e),
        },
        Content::Func(args, ret) => match layouts_of(subs, args, var) {
            Ok(ls) => {
                if *ret < var {
                    match layout_of(subs, *ret) {
                        Ok(r) => Ok(Layout::FunctionPointer(ls, Box::new(r))),
                        Err(e) => Err(e),
                    }
                } else {
                    Err(LayoutError::Malformed(var))
                }
            },
            Err(e) => Err(e),
        },
    }
}

} // verus!
