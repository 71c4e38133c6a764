//! Queries over the entity store: which components an entity must have to
//! match.

use vstd::prelude::*;
use crate::component::{ascending, ComponentId, Layout};

verus! {

/// The components that a query asks for.
pub struct QueryParameters {
    pub view: Layout,
}

impl Default for QueryParameters {
    fn default() -> (params: QueryParameters)
        ensures
            params.view@ == Seq::<ComponentId>::empty(),
    {
        QueryParameters { view: Layout::new() }
    }
}

impl QueryParameters {
    /// Asks for the component of the Rust type `T` too.
    pub fn include_type<T: 'static>(&mut self)
        ensures
            ascending(final(self).view@),
            exists|cid: ComponentId|
                cid.spec_is_type() && final(self).view@.contains(cid) && (forall|
                    other: ComponentId,
                |
                    other != cid ==> (final(self).view@.contains(other) <==> old(
                        self,
                    ).view@.contains(other))),
    {
        self.view.insert::<T>();
    }

    /// Asks for the component `cid` too.
    pub fn include_cid(&mut self, cid: ComponentId)
        ensures
            ascending(final(self).view@),
            old(self).view@.contains(cid) ==> final(self).view@ == old(self).view@,
            !old(self).view@.contains(cid) ==> final(self).view@.to_multiset() == old(
                self,
            ).view@.to_multiset().insert(cid),
            final(self).view@.contains(cid),
            forall|other: ComponentId|
                other != cid ==> (final(self).view@.contains(other) <==> old(self).view@.contains(
                    other,
                )),
    {
        self.view.insert_cid(cid);
    }

    /// Whether an entity with the components of `layout` matches: it has every
    /// component asked for.
    pub fn matches(&self, layout: &Layout) -> (r: bool)
        ensures
            r <==> forall|i: int|
                0 <= i < self.view@.len() ==> layout@.contains(#[trigger] self.view@[i]),
    {
        self.view.is_subset(layout)
    }
}

} // verus!
