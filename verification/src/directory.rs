//! The peer directory and the offers that open a connection.
//!
//! The server assigns each client a peer identifier, in ascending order and
//! never twice, and keeps for each peer the capability to its interface.

use vstd::prelude::*;
use crate::capability::Capability;
use crate::peer::{
    descriptor_of, export_of, import_of, import_result, CapDescriptor, ClientOffer, PeerConnection,
    PeerError, ServerOffer,
};
use crate::process::PeerId;

verus! {

/// What the directory knows of a peer.
#[derive(Clone, Copy, Debug, PartialEq, Eq, Structural)]
pub enum PeerEntry {
    /// The identifier is assigned; the peer has not offered its interface yet.
    Assigned,
    /// The peer is reachable through this capability.
    Reachable(Capability),
    /// The connection to the peer was lost.
    Dead,
}

/// The peers of a federation, as one runtime knows them.
pub struct PeerDirectory {
    entries: Vec<PeerEntry>,
}

impl View for PeerDirectory {
    type V = Seq<PeerEntry>;

    /// What is known of each peer; a peer identifier is an index here.
    closed spec fn view(&self) -> Seq<PeerEntry> {
        self.entries@
    }
}

/// What `find_peer` gives.
pub open spec fn found_peer(directory: Seq<PeerEntry>, peer: PeerId) -> Option<Capability> {
    if peer.0 < directory.len() {
        match directory[peer.0 as int] {
            PeerEntry::Reachable(cap) => Some(cap),
            _ => None,
        }
    } else {
        None
    }
}

impl PeerDirectory {
    /// A directory without peers.
    pub fn new() -> (directory: PeerDirectory)
        ensures
            directory@ == Seq::<PeerEntry>::empty(),
    {
        PeerDirectory { entries: Vec::new() }
    }

    /// The number of identifiers assigned.
    pub fn len(&self) -> (n: usize)
        ensures
            n == self@.len(),
    {
        self.entries.len()
    }

    /// Assigns the next peer identifier; `None` when 32 bits are used up.
    pub fn allocate(&mut self) -> (r: Option<PeerId>)
        ensures
            r is Some <==> old(self)@.len() <= u32::MAX,
            r matches Some(peer) ==> peer.0 == old(self)@.len() && final(self)@ == old(self)@.push(
                PeerEntry::Assigned,
            ),
            r is None ==> final(self)@ == old(self)@,
    {
        let next = self.entries.len();
        if next > u32::MAX as usize {
            return None;
        }
        self.entries.push(PeerEntry::Assigned);
        Some(PeerId(next as u32))
    }

    /// Takes note of the capability to the interface of `peer`. A peer whose
    /// identifier was not assigned, and a peer that is dead, stays as it is;
    /// the result says whether the capability was taken.
    pub fn set_reachable(&mut self, peer: PeerId, cap: Capability) -> (taken: bool)
        ensures
            taken <==> peer.0 < old(self)@.len() && !(old(self)@[peer.0 as int] is Dead),
            taken ==> final(self)@ == old(self)@.update(peer.0 as int, PeerEntry::Reachable(cap)),
            !taken ==> final(self)@ == old(self)@,
    {
        let index = peer.0 as usize;
        if index < self.entries.len() {
            match self.entries[index] {
                PeerEntry::Dead => false,
                _ => {
                    self.entries.set(index, PeerEntry::Reachable(cap));
                    true
                },
            }
        } else {
            false
        }
    }

    /// Marks `peer` dead, for good.
    pub fn mark_dead(&mut self, peer: PeerId)
        ensures
            final(self)@ == (if peer.0 < old(self)@.len() {
                old(self)@.update(peer.0 as int, PeerEntry::Dead)
            } else {
                old(self)@
            }),
    {
        let index = peer.0 as usize;
        if index < self.entries.len() {
            self.entries.set(index, PeerEntry::Dead);
        }
    }

    /// The capability to the interface of `peer`, if the peer is reachable.
    pub fn find_peer(&self, peer: PeerId) -> (r: Option<Capability>)
        ensures
            r == found_peer(self@, peer),
    {
        let index = peer.0 as usize;
        if index < self.entries.len() {
            match self.entries[index] {
                PeerEntry::Reachable(cap) => Some(cap),
                _ => None,
            }
        } else {
            None
        }
    }
}

/// The offer of a server to the client at the other end of `conn`: the
/// identifier assigned to the client, and the server's peer directory.
pub fn server_offer(conn: &mut PeerConnection, peer_provider: Capability) -> (offer: ServerOffer)
    requires
        old(conn).wf(),
    ensures
        final(conn).wf(),
        offer.new_id.0 == old(conn)@.peer,
        offer.peer_provider == descriptor_of(old(conn)@, peer_provider),
        final(conn)@ == export_of(old(conn)@, peer_provider),
{
    let new_id = conn.peer();
    let descriptor = conn.export_cap(peer_provider);
    ServerOffer { new_id, peer_provider: descriptor }
}

/// The offer of a client to the server at the other end of `conn`: the
/// client's peer interface.
pub fn client_offer(conn: &mut PeerConnection, peer_api: Capability) -> (offer: ClientOffer)
    requires
        old(conn).wf(),
    ensures
        final(conn).wf(),
        offer.peer_api == descriptor_of(old(conn)@, peer_api),
        final(conn)@ == export_of(old(conn)@, peer_api),
{
    let descriptor = conn.export_cap(peer_api);
    ClientOffer { peer_api: descriptor }
}

/// Takes the capability out of an offer that came over `conn`.
pub fn accept_offer(conn: &mut PeerConnection, offered: CapDescriptor) -> (r: Result<
    Capability,
    PeerError,
>)
    requires
        old(conn).wf(),
    ensures
        final(conn).wf(),
        r == import_result(old(conn)@, offered),
        r is Ok ==> final(conn)@ == import_of(old(conn)@, offered),
        r is Err ==> final(conn)@ == old(conn)@,
{
    conn.import_cap(offered)
}

/// Peer identifiers are assigned in ascending order and none twice: each
/// assignment makes the directory one longer, so the next identifier is one
/// more; and a peer that was only assigned its identifier is not found yet.
pub proof fn lemma_peer_ids_ascend(directory: Seq<PeerEntry>)
    requires
        directory.len() <= u32::MAX,
    ensures
        directory.push(PeerEntry::Assigned).len() == directory.len() + 1,
        found_peer(directory.push(PeerEntry::Assigned), PeerId(directory.len() as u32)) is None,
{
}

/// A peer that was marked dead is not found, whatever is noted of it later.
pub proof fn lemma_dead_peer_not_found(directory: Seq<PeerEntry>, peer: PeerId)
    requires
        peer.0 < directory.len(),
    ensures
        found_peer(directory.update(peer.0 as int, PeerEntry::Dead), peer) is None,
{
}

} // verus!
