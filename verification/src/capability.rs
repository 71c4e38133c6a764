//! Capabilities and the per-process capability table.
//!
//! A process never sees a route. It holds integer handles, and its table maps
//! each live handle to a capability: a route together with the permissions
//! granted on it. Handles are issued in increasing order and never reused.
//!
//! A route belongs to the process that hosts it, not to the capabilities
//! that name it. A local route lives until its mailbox is closed or its
//! process is killed, however many capabilities to it are held, and it is
//! not destroyed when the last of them is dropped: the table keeps no count
//! of references, and dropping a handle removes its entry and nothing else.
//! Only across a peer connection are references counted, so that an export
//! can be released when the other side has dropped its last import.

use vstd::prelude::*;
use crate::permissions::Permissions;

verus! {

/// The destination of a capability.
#[derive(Clone, Copy, Debug, PartialEq, Eq, Structural)]
pub enum Route {
    /// A mailbox of this runtime, by its index in the post office.
    Local { mailbox: usize },
    /// A capability that a peer exported to this runtime.
    Remote { peer: u32, cap: u64 },
}

/// A transferable reference to a route, with the permissions granted on it.
#[derive(Clone, Copy, Debug, PartialEq, Eq, Structural)]
pub struct Capability {
    pub route: Route,
    pub perms: Permissions,
}

/// An index into a capability table.
#[derive(Clone, Copy, Debug, PartialEq, Eq, Structural)]
pub struct Handle(pub usize);

/// Why a table operation was refused.
#[derive(Clone, Copy, Debug, PartialEq, Eq, Structural)]
pub enum TableError {
    /// The handle names no live entry of the table.
    InvalidHandle,
    /// The entry does not grant the permissions asked for.
    PermissionDenied,
}

/// What `export` gives on a table with contents `table`.
pub open spec fn export_of(table: Map<Handle, Capability>, handle: Handle, perms: Permissions)
    -> Result<Capability, TableError> {
    if !table.contains_key(handle) {
        Err(TableError::InvalidHandle)
    } else if !perms@.subset_of(table[handle].perms@) {
        Err(TableError::PermissionDenied)
    } else {
        Ok(Capability { route: table[handle].route, perms })
    }
}

/// The contents of a table after `cap` was entered under `handle`.
pub open spec fn import_of(table: Map<Handle, Capability>, handle: Handle, cap: Capability)
    -> Map<Handle, Capability> {
    table.insert(handle, cap)
}

/// The `count` handles that a table issues next after it has issued `issued`.
pub open spec fn fresh_handles(issued: nat, count: nat) -> Seq<Handle> {
    Seq::new(count, |i: int| Handle((issued + i) as usize))
}

/// The contents of a table that had issued `issued` handles after `caps` were
/// entered, first to last, under the handles that follow.
pub open spec fn import_all_of(table: Map<Handle, Capability>, issued: nat, caps: Seq<Capability>)
    -> Map<Handle, Capability> {
    Map::new(
        |h: Handle| table.contains_key(h) || issued <= h.0 < issued + caps.len(),
        |h: Handle|
            if issued <= h.0 < issued + caps.len() {
                caps[h.0 - issued]
            } else {
                table[h]
            },
    )
}

/// A per-process map from handles to capabilities.
pub struct CapabilityTable {
    entries: Vec<Option<Capability>>,
}

impl View for CapabilityTable {
    type V = Map<Handle, Capability>;

    /// The live handles and the capability that each stands for.
    closed spec fn view(&self) -> Map<Handle, Capability> {
        Map::new(
            |h: Handle| h.0 < self.entries@.len() && self.entries@[h.0 as int].is_some(),
            |h: Handle| self.entries@[h.0 as int].unwrap(),
        )
    }
}

impl CapabilityTable {
    /// The number of handles issued so far. The next handle issued is this
    /// number.
    pub closed spec fn issued(&self) -> nat {
        self.entries@.len()
    }

    /// Every live handle was issued by this table.
    pub proof fn lemma_live_handles_issued(&self, handle: Handle)
        requires
            self@.contains_key(handle),
        ensures
            handle.0 < self.issued(),
    {
    }

    /// An empty table.
    pub fn new() -> (table: CapabilityTable)
        ensures
            table@ == Map::<Handle, Capability>::empty(),
            table.issued() == 0,
    {
        let table = CapabilityTable { entries: Vec::new() };
        assert(table@ =~= Map::<Handle, Capability>::empty());
        table
    }

    /// Enters a capability obtained from elsewhere under a fresh handle.
    pub fn import(&mut self, cap: Capability) -> (handle: Handle)
        ensures
            handle.0 == old(self).issued(),
            !old(self)@.contains_key(handle),
            final(self)@ == import_of(old(self)@, handle, cap),
            final(self).issued() == old(self).issued() + 1,
    {
        let index = self.entries.len();
        self.entries.push(Some(cap));
        assert(self@ =~= old(self)@.insert(Handle(index), cap));
        Handle(index)
    }

    /// Mints a capability to `route` with `perms` under a fresh handle.
    pub fn import_owned(&mut self, route: Route, perms: Permissions) -> (handle: Handle)
        ensures
            handle.0 == old(self).issued(),
            !old(self)@.contains_key(handle),
            final(self)@ == import_of(old(self)@, handle, (Capability { route, perms })),
            final(self).issued() == old(self).issued() + 1,
    {
        self.import(Capability { route, perms })
    }

    /// The number of handles issued so far.
    pub fn issued_count(&self) -> (n: usize)
        ensures
            n == self.issued(),
    {
        self.entries.len()
    }

    /// Whether `handle` names a live entry.
    pub fn is_valid(&self, handle: Handle) -> (r: bool)
        ensures
            r <==> self@.contains_key(handle),
    {
        handle.0 < self.entries.len() && self.entries[handle.0].is_some()
    }

    /// The capability behind `handle`, for dispatch inside the runtime.
    pub fn resolve(&self, handle: Handle) -> (r: Option<Capability>)
        ensures
            r == (if self@.contains_key(handle) {
                Some(self@[handle])
            } else {
                None
            }),
    {
        if handle.0 < self.entries.len() {
            self.entries[handle.0]
        } else {
            None
        }
    }

    /// The permissions that `handle` grants.
    pub fn get_permissions(&self, handle: Handle) -> (r: Result<Permissions, TableError>)
        ensures
            r == (if self@.contains_key(handle) {
                Ok::<Permissions, TableError>(self@[handle].perms)
            } else {
                Err(TableError::InvalidHandle)
            }),
    {
        match self.resolve(handle) {
            Some(cap) => Ok(cap.perms),
            None => Err(TableError::InvalidHandle),
        }
    }

    /// A transferable capability to the route of `handle`, restricted to
    /// `perms`. The table is left as it was.
    pub fn export(&self, handle: Handle, perms: Permissions) -> (r: Result<Capability, TableError>)
        ensures
            r == export_of(self@, handle, perms),
    {
        match self.resolve(handle) {
            None => Err(TableError::InvalidHandle),
            Some(cap) => {
                if cap.perms.contains(perms) {
                    Ok(Capability { route: cap.route, perms })
                } else {
                    Err(TableError::PermissionDenied)
                }
            },
        }
    }

    /// A fresh handle to the route of `handle`, restricted to `perms`. Where
    /// that is refused the table is left as it was.
    pub fn demote(&mut self, handle: Handle, perms: Permissions) -> (r: Result<Handle, TableError>)
        ensures
            r is Ok <==> export_of(old(self)@, handle, perms) is Ok,
            r matches Ok(fresh) ==> fresh.0 == old(self).issued() && final(self)@ == import_of(
                old(self)@, fresh, export_of(old(self)@, handle, perms)->Ok_0)
                && final(self).issued() == old(self).issued() + 1,
            r matches Err(e) ==> export_of(old(self)@, handle, perms) == Err::<Capability, TableError>(e)
                && final(self)@ == old(self)@ && final(self).issued() == old(self).issued(),
    {
        match self.export(handle, perms) {
            Ok(cap) => Ok(self.import(cap)),
            Err(e) => Err(e),
        }
    }

    /// Releases `handle`. The entry leaves the table and the handle is never
    /// issued again. The route that it named is left as it is.
    pub fn drop(&mut self, handle: Handle) -> (r: Result<Capability, TableError>)
        ensures
            final(self).issued() == old(self).issued(),
            old(self)@.contains_key(handle) ==> r == Ok::<Capability, TableError>(old(self)@[handle])
                && final(self)@ == old(self)@.remove(handle),
            !old(self)@.contains_key(handle) ==> r == Err::<Capability, TableError>(
                TableError::InvalidHandle,
            ) && final(self)@ == old(self)@,
    {
        match self.resolve(handle) {
            None => Err(TableError::InvalidHandle),
            Some(cap) => {
                self.entries.set(handle.0, None);
                assert(self@ =~= old(self)@.remove(handle));
                Ok(cap)
            },
        }
    }

    /// Releases every handle at once, as when the owning process ends. No
    /// handle is issued again.
    pub fn release_all(&mut self)
        ensures
            final(self)@ == Map::<Handle, Capability>::empty(),
            final(self).issued() == old(self).issued(),
    {
        let mut i: usize = 0;
        while i < self.entries.len()
            invariant
                i <= self.entries@.len(),
                self.entries@.len() == old(self).entries@.len(),
                forall|k: int| 0 <= k < i ==> self.entries@[k].is_none(),
            decreases self.entries@.len() - i,
        {
            self.entries.set(i, None);
            i = i + 1;
        }
        assert(self@ =~= Map::<Handle, Capability>::empty());
    }

    /// Enters each capability of `caps`, first to last, under fresh handles,
    /// and gives the handles in the same order.
    pub fn import_all(&mut self, caps: &Vec<Capability>) -> (handles: Vec<Handle>)
        ensures
            handles@ == fresh_handles(old(self).issued(), caps@.len()),
            final(self)@ == import_all_of(old(self)@, old(self).issued(), caps@),
            final(self).issued() == old(self).issued() + caps@.len(),
    {
        let mut handles: Vec<Handle> = Vec::new();
        let mut i: usize = 0;
        let ghost start = self.issued();
        proof {
            assert(self@ =~= import_all_of(old(self)@, start, caps@.take(0)));
        }
        while i < caps.len()
            invariant
                i <= caps@.len(),
                start == old(self).issued(),
                self.issued() == start + i,
                handles@ == fresh_handles(start, i as nat),
                self@ == import_all_of(old(self)@, start, caps@.take(i as int)),
                forall|h: Handle| old(self)@.contains_key(h) ==> h.0 < start,
            decreases caps@.len() - i,
        {
            let handle = self.import(caps[i]);
            handles.push(handle);
            proof {
                assert(handles@ =~= fresh_handles(start, (i + 1) as nat));
                assert(self@ =~= import_all_of(old(self)@, start, caps@.take(i + 1)));
            }
            i = i + 1;
        }
        proof {
            assert(caps@.take(i as int) =~= caps@);
        }
        handles
    }

    /// The number of live handles.
    pub fn len(&self) -> (n: usize)
        ensures
            n == self@.dom().len(),
            self@.dom().finite(),
    {
        let mut n: usize = 0;
        let mut i: usize = 0;
        proof {
            assert(self.live_below(0) =~= Set::<Handle>::empty());
        }
        while i < self.entries.len()
            invariant
                i <= self.entries@.len(),
                n <= i,
                self.live_below(i as nat).finite(),
                n == self.live_below(i as nat).len(),
            decreases self.entries@.len() - i,
        {
            proof {
                if self.entries@[i as int].is_some() {
                    assert(self.live_below((i + 1) as nat) =~= self.live_below(i as nat).insert(
                        Handle(i),
                    ));
                } else {
                    assert(self.live_below((i + 1) as nat) =~= self.live_below(i as nat));
                }
            }
            if self.entries[i].is_some() {
                n = n + 1;
            }
            i = i + 1;
        }
        proof {
            assert(self.live_below(i as nat) =~= self@.dom());
        }
        n
    }

    /// The live handles below `bound`.
    closed spec fn live_below(&self, bound: nat) -> Set<Handle> {
        Set::new(
            |h: Handle| h.0 < bound && h.0 < self.entries@.len() && self.entries@[h.0 as int].is_some(),
        )
    }
}

/// `export` succeeds exactly when the handle is live and the permissions asked
/// for are a subset of the entry's, and what it gives never grants a
/// permission that the entry lacks.
pub proof fn lemma_export_never_escalates(
    table: Map<Handle, Capability>,
    handle: Handle,
    perms: Permissions,
)
    ensures
        export_of(table, handle, perms) is Ok <==> table.contains_key(handle) && perms@.subset_of(
            table[handle].perms@,
        ),
        export_of(table, handle, perms) matches Ok(cap) ==> cap.route == table[handle].route
            && cap.perms == perms && cap.perms@.subset_of(table[handle].perms@),
{
}

/// Two demotions in a row only shrink: where a handle is demoted to `first`
/// and the result to `second`, `second` is a subset of `first`, which is a
/// subset of what the first handle granted, and all three share a route.
pub proof fn lemma_demote_monotonic(
    table: Map<Handle, Capability>,
    handle: Handle,
    first: Permissions,
    mid: Handle,
    second: Permissions,
)
    requires
        export_of(table, handle, first) is Ok,
        !table.contains_key(mid),
        export_of(
            import_of(table, mid, export_of(table, handle, first)->Ok_0),
            mid,
            second,
        ) is Ok,
    ensures
        second@.subset_of(first@),
        first@.subset_of(table[handle].perms@),
        second@.subset_of(table[handle].perms@),
        export_of(
            import_of(table, mid, export_of(table, handle, first)->Ok_0),
            mid,
            second,
        )->Ok_0.route == table[handle].route,
{
}

/// Exporting a handle and importing the result gives a new handle with the
/// permissions asked for and the route of the old one; the old entries stay.
pub proof fn lemma_import_export(
    table: Map<Handle, Capability>,
    handle: Handle,
    perms: Permissions,
    fresh: Handle,
)
    requires
        export_of(table, handle, perms) is Ok,
        !table.contains_key(fresh),
    ensures
        ({
            let after = import_of(table, fresh, export_of(table, handle, perms)->Ok_0);
            &&& after.contains_key(fresh)
            &&& after[fresh].perms == perms
            &&& after[fresh].route == table[handle].route
            &&& fresh != handle
            &&& forall|h: Handle| table.contains_key(h) ==> after.contains_key(h) && after[h] == table[h]
        }),
{
}

/// Demoting a handle to the permissions it already has gives a handle that
/// stands for the same capability.
pub proof fn lemma_demote_to_same(table: Map<Handle, Capability>, handle: Handle, fresh: Handle)
    requires
        table.contains_key(handle),
    ensures
        export_of(table, handle, table[handle].perms) == Ok::<Capability, TableError>(table[handle]),
        import_of(table, fresh, table[handle])[fresh] == table[handle],
{
}

} // verus!
