//! The type solution: for every type variable, the type it was solved to.

use vstd::prelude::*;

verus! {

/// A type variable: an index into the type solution.
pub type Variable = usize;

/// The solved type of one variable. A type refers to its parts by variable,
/// and only to variables that come before its own.
#[derive(Debug, PartialEq, Eq)]
pub enum Content {
    /// Left unconstrained by the solver.
    Flex,
    Int,
    Float,
    Bool,
    Byte,
    Str,
    /// A list, by the variable of its elements.
    List(Variable),
    /// A record: its labels, each once and in any order, and one variable per label.
    Record { labels: Vec<u32>, fields: Vec<Variable> },
    /// A tag union, by the variable of each arm's payload, in ascending order of tag.
    TagUnion(Vec<Variable>),
    /// A function, by the variables of its arguments and of its result.
    Func(Vec<Variable>, Variable),
}

/// The type solution of one compilation unit.
#[derive(Debug)]
pub struct Subs {
    pub contents: Vec<Content>,
}

impl Subs {
    /// The solved types, by variable.
    pub open spec fn view(&self) -> Seq<Content> {
        self.contents@
    }

    /// An empty solution.
    pub fn new() -> (r: Subs)
        ensures
            r@.len() == 0,
    {
        Subs { contents: Vec::new() }
    }

    /// Records the solved type of the next variable and returns that variable.
    pub fn fresh(&mut self, content: Content) -> (var: Variable)
        ensures
            var == old(self)@.len(),
            final(self)@ == old(self)@.push(content),
    {
        let var = self.contents.len();
        self.contents.push(content);
        var
    }
}

} // verus!
