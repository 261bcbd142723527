//! The projection context threaded top-down through the pushdown traversal.
use vstd::prelude::*;
use crate::expr::{contains_name, names_of, push_unique};

verus! {

/// The columns that consumers above the current node still need.
///
/// `acc_projections` lists the required names in the order they were first
/// requested; it doubles as the projected-names set. An empty list means that
/// nothing above has constrained the projection yet ("select all").
pub struct ProjectionContext {
    pub acc_projections: Vec<String>,
}

impl ProjectionContext {
    /// The required names.
    pub open spec fn names(&self) -> Seq<Seq<char>> {
        names_of(self.acc_projections@)
    }

    /// Some consumer above has constrained the projection.
    pub open spec fn pushed(&self) -> bool {
        self.acc_projections@.len() > 0
    }

    pub fn new(acc_projections: Vec<String>) -> (res: Self)
        ensures
            res.acc_projections == acc_projections,
    {
        ProjectionContext { acc_projections }
    }

    /// The context at the root of a plan: nothing required yet.
    pub fn root() -> (res: Self)
        ensures
            !res.pushed(),
            res.names() == Seq::<Seq<char>>::empty(),
    {
        let res = ProjectionContext { acc_projections: Vec::new() };
        assert(res.names() =~= Seq::<Seq<char>>::empty());
        res
    }

    pub fn has_pushed_down(&self) -> (res: bool)
        ensures
            res == self.pushed(),
    {
        self.acc_projections.len() > 0
    }

    /// Whether `name` is required above.
    pub fn is_projected(&self, name: &String) -> (res: bool)
        ensures
            res == self.names().contains(name@),
    {
        contains_name(&self.acc_projections, name)
    }

    /// Requires `name` too; a name already required is not added twice.
    pub fn add_projection(&mut self, name: String)
        ensures
            forall|m: Seq<char>|
                final(self).names().contains(m) <==> (old(self).names().contains(m) || m == name@),
            names_of(old(self).acc_projections@).contains(name@) ==> final(self).acc_projections@
                == old(self).acc_projections@,
    {
        push_unique(&mut self.acc_projections, name);
    }
}

} // verus!
