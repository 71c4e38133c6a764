//! The peer plane: what one runtime keeps for its connection to another, and
//! how capabilities cross it.
//!
//! A capability crosses the wire as a descriptor: an identifier with
//! permissions, and the side that exported it. A side that sends a capability
//! of its own enters it into its export table and sends the entry's index. A
//! side that sends back a capability that the other side exported sends that
//! side's index; the owner then grants no more than it had sent under that
//! index.

use std::collections::HashMap;
use vstd::prelude::*;
use crate::capability::{Capability, Route};
use crate::mailbox::{Signal, SignalModel, Watch};
use crate::permissions::{Permission, Permissions};
use crate::process::PeerId;

verus! {

broadcast use vstd::std_specs::hash::group_hash_axioms;

/// Which side exported the capability that a descriptor names.
#[derive(Clone, Copy, Debug, PartialEq, Eq, Structural)]
pub enum Origin {
    /// The side that sends the descriptor.
    Sender,
    /// The side that receives the descriptor.
    Receiver,
}

/// A capability on the wire.
#[derive(Clone, Copy, Debug, PartialEq, Eq, Structural)]
pub struct CapDescriptor {
    pub origin: Origin,
    /// The index in the export table of the side named by `origin`.
    pub id: u64,
    pub perms: Permissions,
}

/// Why a frame was not taken.
#[derive(Clone, Copy, Debug, PartialEq, Eq, Structural)]
pub enum PeerError {
    /// A descriptor names an export that does not exist or was released.
    UnknownCapability,
    /// The target was exported without `SEND`.
    PermissionDenied,
    /// A signal frame came without a subject.
    Malformed,
    /// The connection is lost.
    Disconnected,
}

/// What a data frame carries.
#[derive(Clone, Copy, Debug, PartialEq, Eq, Structural)]
pub enum FrameKind {
    /// A message for the target.
    Message,
    /// A `Down` for the target; the first capability is the subject.
    Signal,
}

/// The server's half of the handshake that follows authentication.
#[derive(Clone, Copy, Debug, PartialEq, Eq, Structural)]
pub struct ServerOffer {
    /// The peer identifier assigned to the client.
    pub new_id: PeerId,
    /// The server's peer directory.
    pub peer_provider: CapDescriptor,
}

/// The client's half of the handshake that follows authentication.
#[derive(Clone, Copy, Debug, PartialEq, Eq, Structural)]
pub struct ClientOffer {
    /// The client's peer interface.
    pub peer_api: CapDescriptor,
}

/// A unit of the framed protocol.
#[derive(Clone, Debug)]
pub enum Frame {
    /// A message or signal for the export `target` of the receiving side.
    Data { kind: FrameKind, target: u64, payload: Vec<u8>, caps: Vec<CapDescriptor> },
    /// The sending side holds no reference to the export `id` of the receiving
    /// side any more.
    Release { id: u64 },
}

/// A frame as a plain value.
pub enum FrameModel {
    Data { kind: FrameKind, target: u64, payload: Seq<u8>, caps: Seq<CapDescriptor> },
    Release { id: u64 },
}

impl View for Frame {
    type V = FrameModel;

    open spec fn view(&self) -> FrameModel {
        match self {
            Frame::Data { kind, target, payload, caps } => FrameModel::Data {
                kind: *kind,
                target: *target,
                payload: payload@,
                caps: caps@,
            },
            Frame::Release { id } => FrameModel::Release { id: *id },
        }
    }
}

/// What came in with a frame.
#[derive(Debug)]
pub enum Inbound {
    /// A signal to deliver to a route of this runtime.
    Deliver { route: Route, signal: Signal },
    /// The peer released an export.
    Released { id: u64 },
    /// The frame was dropped.
    Rejected(PeerError),
}

/// What came in, as a plain value.
pub enum InboundModel {
    Deliver { route: Route, signal: SignalModel },
    Released { id: u64 },
    Rejected(PeerError),
}

impl View for Inbound {
    type V = InboundModel;

    open spec fn view(&self) -> InboundModel {
        match self {
            Inbound::Deliver { route, signal } => InboundModel::Deliver {
                route: *route,
                signal: signal@,
            },
            Inbound::Released { id } => InboundModel::Released { id: *id },
            Inbound::Rejected(e) => InboundModel::Rejected(*e),
        }
    }
}

/// An entry of the export table.
#[derive(Clone, Copy, Debug, PartialEq, Eq, Structural)]
pub struct Export {
    /// What was exported, with the permissions that were sent.
    pub cap: Capability,
    /// How often it was sent.
    pub refs: usize,
    /// Whether the peer still holds it.
    pub live: bool,
}

/// A connection as a plain value.
pub struct PeerModel {
    /// The peer at the other end.
    pub peer: u32,
    /// Whether the transport is up.
    pub connected: bool,
    /// The export table; a remote capability identifier is an index here.
    pub exports: Seq<Export>,
    /// The import table: for each capability of the peer that this side
    /// holds, how many references to it this side holds.
    pub imports: Map<u64, usize>,
    /// The watches that mailboxes of this side hold on capabilities of the
    /// peer.
    pub watches: Seq<Watch>,
}

/// A count after one more was added; it stops at the largest number that the
/// machine can hold.
pub open spec fn one_more(count: usize) -> usize {
    if count < usize::MAX {
        (count + 1) as usize
    } else {
        count
    }
}

/// Whether `cap` came from the peer of `m`.
pub open spec fn is_from_peer(m: PeerModel, cap: Capability) -> bool {
    cap.route matches Route::Remote { peer, .. } && peer == m.peer
}

/// Whether the export at `index` is live and stands for `cap`.
pub open spec fn exports_at(exports: Seq<Export>, index: int, cap: Capability) -> bool {
    0 <= index < exports.len() && exports[index].live && exports[index].cap == cap
}

/// Whether some live export stands for `cap`.
pub open spec fn is_exported(exports: Seq<Export>, cap: Capability) -> bool {
    exists|i: int| exports_at(exports, i, cap)
}

/// The index of the live export that stands for `cap`.
pub open spec fn export_index(exports: Seq<Export>, cap: Capability) -> int {
    choose|i: int| exports_at(exports, i, cap)
}

/// The descriptor that goes on the wire for `cap`.
pub open spec fn descriptor_of(m: PeerModel, cap: Capability) -> CapDescriptor {
    match cap.route {
        Route::Remote { peer, cap: id } if peer == m.peer => CapDescriptor {
            origin: Origin::Receiver,
            id,
            perms: cap.perms,
        },
        _ => CapDescriptor {
            origin: Origin::Sender,
            id: if is_exported(m.exports, cap) {
                export_index(m.exports, cap) as u64
            } else {
                m.exports.len() as u64
            },
            perms: cap.perms,
        },
    }
}

/// The connection after `cap` was sent: a capability of this side has an
/// export of its own, counted once more; one that came from the peer needs
/// none.
pub open spec fn export_of(m: PeerModel, cap: Capability) -> PeerModel {
    if is_from_peer(m, cap) {
        m
    } else if is_exported(m.exports, cap) {
        let i = export_index(m.exports, cap);
        PeerModel {
            exports: m.exports.update(i, Export { refs: one_more(m.exports[i].refs), ..m.exports[i] }),
            ..m
        }
    } else {
        PeerModel { exports: m.exports.push(Export { cap, refs: 1, live: true }), ..m }
    }
}

/// The capability that a descriptor stands for at the side that receives it,
/// or why it stands for none. A capability of the peer becomes a remote
/// route. A capability of this side becomes the route that was exported, with
/// the permissions that were sent and that the descriptor claims.
pub open spec fn import_result(m: PeerModel, desc: CapDescriptor) -> Result<Capability, PeerError> {
    match desc.origin {
        Origin::Sender => Ok(
            Capability { route: Route::Remote { peer: m.peer, cap: desc.id }, perms: desc.perms },
        ),
        Origin::Receiver => if desc.id < m.exports.len() && m.exports[desc.id as int].live {
            Ok(
                Capability {
                    route: m.exports[desc.id as int].cap.route,
                    perms: m.exports[desc.id as int].cap.perms.spec_intersection(desc.perms),
                },
            )
        } else {
            Err(PeerError::UnknownCapability)
        },
    }
}

/// The count of references that this side holds to the peer's capability
/// `id`.
pub open spec fn import_refs(m: PeerModel, id: u64) -> usize {
    if m.imports.contains_key(id) {
        m.imports[id]
    } else {
        0
    }
}

/// The connection after a descriptor was received: a capability of the peer
/// is counted once more in the import table.
pub open spec fn import_of(m: PeerModel, desc: CapDescriptor) -> PeerModel {
    match desc.origin {
        Origin::Sender => PeerModel {
            imports: m.imports.insert(desc.id, one_more(import_refs(m, desc.id))),
            ..m
        },
        Origin::Receiver => m,
    }
}

/// The invariant of a connection: no capability has two live exports.
pub open spec fn peer_wf(m: PeerModel) -> bool {
    &&& forall|i: int, j: int|
        0 <= i < m.exports.len() && 0 <= j < m.exports.len() && m.exports[i].live
            && m.exports[j].live && m.exports[i].cap == m.exports[j].cap ==> i == j
    &&& m.watches.no_duplicates()
}

/// What this runtime keeps for its connection to one peer.
pub struct PeerConnection {
    peer: PeerId,
    connected: bool,
    exports: Vec<Export>,
    imports: HashMap<u64, usize>,
    watches: Vec<Watch>,
}

impl View for PeerConnection {
    type V = PeerModel;

    closed spec fn view(&self) -> PeerModel {
        PeerModel {
            peer: self.peer.0,
            connected: self.connected,
            exports: self.exports@,
            imports: self.imports@,
            watches: self.watches@,
        }
    }
}

impl PeerConnection {
    /// Whether the invariant holds: see [`peer_wf`].
    pub closed spec fn wf(&self) -> bool {
        peer_wf(self@)
    }

    /// What `wf` says of the view.
    pub proof fn lemma_wf(&self)
        requires
            self.wf(),
        ensures
            peer_wf(self@),
    {
    }

    /// A connection to `peer` over which nothing has passed yet.
    pub fn new(peer: PeerId) -> (conn: PeerConnection)
        ensures
            conn.wf(),
            conn@ == (PeerModel {
                peer: peer.0,
                connected: true,
                exports: Seq::empty(),
                imports: Map::empty(),
                watches: Seq::empty(),
            }),
    {
        PeerConnection {
            peer,
            connected: true,
            exports: Vec::new(),
            imports: HashMap::new(),
            watches: Vec::new(),
        }
    }

    /// The peer at the other end.
    pub fn peer(&self) -> (peer: PeerId)
        ensures
            peer.0 == self@.peer,
    {
        self.peer
    }

    /// Whether the transport is up.
    pub fn is_connected(&self) -> (r: bool)
        ensures
            r == self@.connected,
    {
        self.connected
    }

    /// The export at `id`, if there is one.
    pub fn export_entry(&self, id: u64) -> (r: Option<Export>)
        ensures
            r == (if id < self@.exports.len() {
                Some(self@.exports[id as int])
            } else {
                None
            }),
    {
        if id < self.exports.len() as u64 {
            Some(self.exports[id as usize])
        } else {
            None
        }
    }

    /// How many references this side holds to the peer's capability `id`.
    pub fn import_count(&self, id: u64) -> (n: usize)
        ensures
            n == import_refs(self@, id),
    {
        match self.imports.get(&id) {
            Some(n) => *n,
            None => 0,
        }
    }

    /// The index of the live export that stands for `cap`, if there is one.
    fn find_export(&self, cap: Capability) -> (r: Option<usize>)
        requires
            self.wf(),
        ensures
            r is Some <==> is_exported(self@.exports, cap),
            r matches Some(i) ==> i == export_index(self@.exports, cap) && exports_at(
                self@.exports,
                i as int,
                cap,
            ),
    {
        let mut i: usize = 0;
        while i < self.exports.len()
            invariant
                i <= self.exports@.len(),
                self.wf(),
                forall|k: int| 0 <= k < i ==> !exports_at(self@.exports, k, cap),
            decreases self.exports@.len() - i,
        {
            if self.exports[i].live && self.exports[i].cap == cap {
                proof {
                    assert(exports_at(self@.exports, i as int, cap));
                    let j = export_index(self@.exports, cap);
                    assert(exports_at(self@.exports, j, cap));
                }
                return Some(i);
            }
            i = i + 1;
        }
        None
    }

    /// Puts `cap` on the wire: gives the descriptor to send and, for a
    /// capability of this side, counts the export.
    pub fn export_cap(&mut self, cap: Capability) -> (desc: CapDescriptor)
        requires
            old(self).wf(),
        ensures
            final(self).wf(),
            desc == descriptor_of(old(self)@, cap),
            final(self)@ == export_of(old(self)@, cap),
    {
        match cap.route {
            Route::Remote { peer, cap: id } => {
                if peer == self.peer.0 {
                    return CapDescriptor { origin: Origin::Receiver, id, perms: cap.perms };
                }
            },
            Route::Local { .. } => {},
        }
        match self.find_export(cap) {
            Some(i) => {
                let refs = self.exports[i].refs;
                if refs < usize::MAX {
                    self.exports[i].refs = refs + 1;
                }
                proof {
                    assert(self@.exports =~= export_of(old(self)@, cap).exports);
                }
                CapDescriptor { origin: Origin::Sender, id: i as u64, perms: cap.perms }
            },
            None => {
                let id = self.exports.len();
                self.exports.push(Export { cap, refs: 1, live: true });
                proof {
                    assert forall|i: int, j: int|
                        0 <= i < self@.exports.len() && 0 <= j < self@.exports.len()
                            && self@.exports[i].live && self@.exports[j].live && self@.exports[i].cap
                            == self@.exports[j].cap implies i == j by {
                        if i == id && j < id {
                            assert(exports_at(old(self)@.exports, j, cap));
                        }
                        if j == id && i < id {
                            assert(exports_at(old(self)@.exports, i, cap));
                        }
                    }
                }
                CapDescriptor { origin: Origin::Sender, id: id as u64, perms: cap.perms }
            },
        }
    }

    /// Takes a capability off the wire: gives the capability that the
    /// descriptor stands for at this side and, for a capability of the peer,
    /// counts the reference.
    pub fn import_cap(&mut self, desc: CapDescriptor) -> (r: Result<Capability, PeerError>)
        requires
            old(self).wf(),
        ensures
            final(self).wf(),
            r == import_result(old(self)@, desc),
            r is Ok ==> final(self)@ == import_of(old(self)@, desc),
            r is Err ==> final(self)@ == old(self)@,
    {
        match desc.origin {
            Origin::Sender => {
                let refs = self.import_count(desc.id);
                let counted = if refs < usize::MAX {
                    refs + 1
                } else {
                    refs
                };
                self.imports.insert(desc.id, counted);
                Ok(
                    Capability {
                        route: Route::Remote { peer: self.peer.0, cap: desc.id },
                        perms: desc.perms,
                    },
                )
            },
            Origin::Receiver => {
                match self.export_entry(desc.id) {
                    Some(entry) => {
                        if entry.live {
                            Ok(
                                Capability {
                                    route: entry.cap.route,
                                    perms: entry.cap.perms.intersection(desc.perms),
                                },
                            )
                        } else {
                            Err(PeerError::UnknownCapability)
                        }
                    },
                    None => Err(PeerError::UnknownCapability),
                }
            },
        }
    }

    /// Drops one reference of this side to the peer's capability `id`. When
    /// the last one is dropped the entry leaves the import table and the
    /// result is the `Release` frame to send.
    pub fn release_import(&mut self, id: u64) -> (frame: Option<Frame>)
        requires
            old(self).wf(),
        ensures
            final(self).wf(),
            frame is Some <==> import_refs(old(self)@, id) == 1,
            frame matches Some(f) ==> f@ == (FrameModel::Release { id }),
            final(self)@ == (PeerModel {
                imports: if import_refs(old(self)@, id) > 1 {
                    old(self)@.imports.insert(id, (import_refs(old(self)@, id) - 1) as usize)
                } else {
                    old(self)@.imports.remove(id)
                },
                ..old(self)@
            }),
    {
        let refs = self.import_count(id);
        if refs > 1 {
            self.imports.insert(id, refs - 1);
            None
        } else {
            self.imports.remove(&id);
            if refs == 1 {
                Some(Frame::Release { id })
            } else {
                None
            }
        }
    }

    /// Takes note that the peer released the export `id`: the entry is dead
    /// from now on, and its index is not used again.
    pub fn on_release(&mut self, id: u64)
        requires
            old(self).wf(),
        ensures
            final(self).wf(),
            final(self)@ == released_of(old(self)@, id),
    {
        if id < self.exports.len() as u64 {
            let index = id as usize;
            self.exports[index].live = false;
            self.exports[index].refs = 0;
            proof {
                assert(self@.exports =~= released_of(old(self)@, id).exports);
            }
        }
    }

    /// Records a watch of mailbox `watcher` on `subject`, a capability of the
    /// peer, once for each pair. On a connection that is lost, and for a
    /// subject that is no capability of the peer, nothing is recorded; the
    /// result then is the watch, to be fired at once.
    pub fn monitor_remote(&mut self, subject: Capability, watcher: usize) -> (fire: Option<Watch>)
        requires
            old(self).wf(),
        ensures
            final(self).wf(),
            fire == (if old(self)@.connected && is_from_peer(old(self)@, subject) {
                None
            } else {
                Some(Watch { watcher, subject })
            }),
            final(self)@ == (if old(self)@.connected && is_from_peer(old(self)@, subject)
                && !old(self)@.watches.contains(Watch { watcher, subject }) {
                PeerModel {
                    watches: old(self)@.watches.push(Watch { watcher, subject }),
                    ..old(self)@
                }
            } else {
                old(self)@
            }),
    {
        let watch = Watch { watcher, subject };
        let from_peer = match subject.route {
            Route::Remote { peer, .. } => peer == self.peer.0,
            Route::Local { .. } => false,
        };
        if !self.connected || !from_peer {
            return Some(watch);
        }
        let mut i: usize = 0;
        let mut found = false;
        while i < self.watches.len()
            invariant
                i <= self.watches@.len(),
                found <==> exists|k: int| 0 <= k < i && self.watches@[k] == watch,
            decreases self.watches@.len() - i,
        {
            if self.watches[i] == watch {
                found = true;
            }
            i = i + 1;
        }
        if !found {
            let ghost before = self.watches@;
            self.watches.push(watch);
            proof {
                assert forall|a: int, b: int|
                    0 <= a < self.watches@.len() && 0 <= b < self.watches@.len() && a
                        != b implies self.watches@[a] != self.watches@[b] by {
                    if a < before.len() && b < before.len() {
                        assert(before[a] != before[b]);
                    }
                }
            }
        }
        None
    }

    /// Takes note that the transport is lost. Every capability of the peer is
    /// gone: the result holds the watches on them, to be fired, and both
    /// tables are cleared.
    pub fn lost(&mut self) -> (fired: Vec<Watch>)
        requires
            old(self).wf(),
        ensures
            final(self).wf(),
            fired@ == old(self)@.watches,
            final(self)@ == (PeerModel {
                peer: old(self)@.peer,
                connected: false,
                exports: Seq::empty(),
                imports: Map::empty(),
                watches: Seq::empty(),
            }),
    {
        let mut fired: Vec<Watch> = Vec::new();
        std::mem::swap(&mut fired, &mut self.watches);
        self.connected = false;
        self.exports.clear();
        self.imports.clear();
        fired
    }

    /// Frames a message or signal for the peer's export `target`: each
    /// capability of `caps` is put on the wire in order.
    pub fn frame(&mut self, kind: FrameKind, target: u64, payload: Vec<u8>, caps: &Vec<Capability>)
        -> (frame: Frame)
        requires
            old(self).wf(),
        ensures
            final(self).wf(),
            final(self)@ == export_all_of(old(self)@, caps@, caps@.len() as int),
            frame@ == (FrameModel::Data {
                kind,
                target,
                payload: payload@,
                caps: descriptors_of(old(self)@, caps@),
            }),
    {
        let mut descriptors: Vec<CapDescriptor> = Vec::new();
        let mut i: usize = 0;
        while i < caps.len()
            invariant
                i <= caps@.len(),
                self.wf(),
                self@ == export_all_of(old(self)@, caps@, i as int),
                descriptors@.len() == i,
                forall|k: int|
                    0 <= k < i ==> descriptors@[k] == descriptor_of(
                        export_all_of(old(self)@, caps@, k),
                        caps@[k],
                    ),
            decreases caps@.len() - i,
        {
            let desc = self.export_cap(caps[i]);
            descriptors.push(desc);
            i = i + 1;
        }
        proof {
            assert(descriptors@ =~= descriptors_of(old(self)@, caps@));
        }
        Frame::Data { kind, target, payload, caps: descriptors }
    }

    /// Whether every descriptor of `caps` stands for a capability at this
    /// side.
    fn all_known(&self, caps: &Vec<CapDescriptor>) -> (r: bool)
        ensures
            r == all_known(self@, caps@),
    {
        let mut i: usize = 0;
        while i < caps.len()
            invariant
                i <= caps@.len(),
                forall|k: int| 0 <= k < i ==> import_result(self@, #[trigger] caps@[k]) is Ok,
            decreases caps@.len() - i,
        {
            let desc = caps[i];
            let known = match desc.origin {
                Origin::Sender => true,
                Origin::Receiver => match self.export_entry(desc.id) {
                    Some(entry) => entry.live,
                    None => false,
                },
            };
            if !known {
                assert(import_result(self@, caps@[i as int]) is Err);
                return false;
            }
            i = i + 1;
        }
        true
    }

    /// Takes a frame that came from the peer and says what to do with it: see
    /// [`receive_result`].
    pub fn receive(&mut self, frame: Frame) -> (inbound: Inbound)
        requires
            old(self).wf(),
        ensures
            final(self).wf(),
            inbound@ == receive_result(old(self)@, frame@),
            final(self)@ == receive_of(old(self)@, frame@),
    {
        match frame {
            Frame::Release { id } => {
                self.on_release(id);
                Inbound::Released { id }
            },
            Frame::Data { kind, target, payload, caps } => {
                if !self.connected {
                    return Inbound::Rejected(PeerError::Disconnected);
                }
                let entry = match self.export_entry(target) {
                    Some(entry) => entry,
                    None => {
                        return Inbound::Rejected(PeerError::UnknownCapability);
                    },
                };
                if !entry.live {
                    return Inbound::Rejected(PeerError::UnknownCapability);
                }
                match kind {
                    FrameKind::Message => {
                        if !entry.cap.perms.has(Permission::Send) {
                            return Inbound::Rejected(PeerError::PermissionDenied);
                        }
                    },
                    FrameKind::Signal => {
                        if caps.len() == 0 {
                            return Inbound::Rejected(PeerError::Malformed);
                        }
                    },
                }
                if !self.all_known(&caps) {
                    return Inbound::Rejected(PeerError::UnknownCapability);
                }
                let ghost before = self@;
                let mut imported: Vec<Capability> = Vec::new();
                let mut i: usize = 0;
                while i < caps.len()
                    invariant
                        i <= caps@.len(),
                        self.wf(),
                        all_known(before, caps@),
                        self@ == import_all_of(before, caps@, i as int),
                        self@.exports == before.exports,
                        self@.peer == before.peer,
                        imported@.len() == i,
                        forall|k: int|
                            0 <= k < i ==> Ok::<Capability, PeerError>(imported@[k])
                                == import_result(before, caps@[k]),
                    decreases caps@.len() - i,
                {
                    assert(import_result(before, caps@[i as int]) is Ok);
                    match self.import_cap(caps[i]) {
                        Ok(cap) => {
                            imported.push(cap);
                        },
                        Err(_) => {},
                    }
                    i = i + 1;
                }
                proof {
                    assert(imported@ =~= imported_of(before, caps@));
                }
                match kind {
                    FrameKind::Message => Inbound::Deliver {
                        route: entry.cap.route,
                        signal: Signal::Message { payload, caps: imported },
                    },
                    FrameKind::Signal => Inbound::Deliver {
                        route: entry.cap.route,
                        signal: Signal::Down { subject: imported[0] },
                    },
                }
            },
        }
    }
}

/// The connection after the peer released the export `id`.
pub open spec fn released_of(m: PeerModel, id: u64) -> PeerModel {
    if id < m.exports.len() {
        PeerModel {
            exports: m.exports.update(
                id as int,
                Export { live: false, refs: 0, ..m.exports[id as int] },
            ),
            ..m
        }
    } else {
        m
    }
}

/// The connection after the first `count` capabilities of `caps` were put on
/// the wire, in order.
pub open spec fn export_all_of(m: PeerModel, caps: Seq<Capability>, count: int) -> PeerModel
    decreases count,
{
    if count <= 0 {
        m
    } else {
        export_of(export_all_of(m, caps, count - 1), caps[count - 1])
    }
}

/// The descriptors that go on the wire for `caps`, each as the connection
/// stands when it is its turn.
pub open spec fn descriptors_of(m: PeerModel, caps: Seq<Capability>) -> Seq<CapDescriptor> {
    Seq::new(caps.len(), |k: int| descriptor_of(export_all_of(m, caps, k), caps[k]))
}

/// Whether every descriptor of `caps` stands for a capability at this side.
pub open spec fn all_known(m: PeerModel, caps: Seq<CapDescriptor>) -> bool {
    forall|k: int| 0 <= k < caps.len() ==> import_result(m, #[trigger] caps[k]) is Ok
}

/// The connection after the first `count` descriptors of `caps` were taken
/// off the wire, in order.
pub open spec fn import_all_of(m: PeerModel, caps: Seq<CapDescriptor>, count: int) -> PeerModel
    decreases count,
{
    if count <= 0 {
        m
    } else {
        import_of(import_all_of(m, caps, count - 1), caps[count - 1])
    }
}

/// The capabilities that the descriptors of `caps` stand for at this side.
pub open spec fn imported_of(m: PeerModel, caps: Seq<CapDescriptor>) -> Seq<Capability> {
    Seq::new(caps.len(), |k: int| import_result(m, caps[k])->Ok_0)
}

/// Why a data frame is dropped, if it is. A frame is taken only on a
/// connection that is up, for a target that is a live export (with `SEND`, for
/// a message), with a subject (for a signal), and with descriptors that all
/// stand for capabilities at this side.
pub open spec fn data_refusal(
    m: PeerModel,
    kind: FrameKind,
    target: u64,
    caps: Seq<CapDescriptor>,
) -> Option<PeerError> {
    if !m.connected {
        Some(PeerError::Disconnected)
    } else if !(target < m.exports.len() && m.exports[target as int].live) {
        Some(PeerError::UnknownCapability)
    } else if kind is Message && !m.exports[target as int].cap.perms@.contains(Permission::Send) {
        Some(PeerError::PermissionDenied)
    } else if kind is Signal && caps.len() == 0 {
        Some(PeerError::Malformed)
    } else if !all_known(m, caps) {
        Some(PeerError::UnknownCapability)
    } else {
        None
    }
}

/// What `receive` answers.
pub open spec fn receive_result(m: PeerModel, frame: FrameModel) -> InboundModel {
    match frame {
        FrameModel::Release { id } => InboundModel::Released { id },
        FrameModel::Data { kind, target, payload, caps } => match data_refusal(
            m,
            kind,
            target,
            caps,
        ) {
            Some(e) => InboundModel::Rejected(e),
            None => InboundModel::Deliver {
                route: m.exports[target as int].cap.route,
                signal: match kind {
                    FrameKind::Message => SignalModel::Message {
                        payload,
                        caps: imported_of(m, caps),
                    },
                    FrameKind::Signal => SignalModel::Down { subject: imported_of(m, caps)[0] },
                },
            },
        },
    }
}

/// The connection after `receive`: a release marks the export dead, a data
/// frame that is taken counts its capabilities, a frame that is dropped
/// changes nothing.
pub open spec fn receive_of(m: PeerModel, frame: FrameModel) -> PeerModel {
    match frame {
        FrameModel::Release { id } => released_of(m, id),
        FrameModel::Data { kind, target, payload, caps } => if data_refusal(m, kind, target, caps)
            is None {
            import_all_of(m, caps, caps.len() as int)
        } else {
            m
        },
    }
}

/// A capability that one side exports and that comes back from the peer leads
/// to the route that was exported and grants what was sent and what the
/// returning descriptor claims, never more than was sent. Here `a` is the
/// connection of the owner to the peer, `b` the connection of the peer to the
/// owner; the peer may hand the capability back with any permissions `claimed`.
pub proof fn lemma_forwarding_round_trip(
    a: PeerModel,
    b: PeerModel,
    owner: u32,
    cap: Capability,
    claimed: Permissions,
)
    requires
        peer_wf(a),
        b.peer == owner,
        !is_from_peer(a, cap),
        cap.perms.valid(),
        a.exports.len() < u64::MAX,
    ensures
        ({
            let sent = descriptor_of(a, cap);
            let a1 = export_of(a, cap);
            let at_peer = import_result(b, sent)->Ok_0;
            let handed_back = Capability { route: at_peer.route, perms: claimed };
            let returned = descriptor_of(import_of(b, sent), handed_back);
            let back = import_result(a1, returned);
            &&& sent.origin == Origin::Sender
            &&& import_result(b, sent) is Ok
            &&& at_peer.route == (Route::Remote { peer: owner, cap: sent.id })
            &&& at_peer.perms == cap.perms
            &&& returned == (CapDescriptor { origin: Origin::Receiver, id: sent.id, perms: claimed })
            &&& back is Ok
            &&& back->Ok_0.route == cap.route
            &&& back->Ok_0.perms@ == cap.perms@.intersect(claimed@)
            &&& back->Ok_0.perms@.subset_of(cap.perms@)
        }),
{
    let a1 = export_of(a, cap);
    if is_exported(a.exports, cap) {
        let i = export_index(a.exports, cap);
        assert(exports_at(a.exports, i, cap));
        assert(a1.exports[i].live && a1.exports[i].cap == cap);
    } else {
        let n = a.exports.len() as int;
        assert(a1.exports[n].live && a1.exports[n].cap == cap);
    }
    cap.perms.lemma_spec_intersection(claimed);
}

/// Putting a capability on the wire keeps the invariant, and so does taking
/// one off it.
pub proof fn lemma_export_import_keep_wf(m: PeerModel, cap: Capability, desc: CapDescriptor)
    requires
        peer_wf(m),
    ensures
        peer_wf(export_of(m, cap)),
        peer_wf(import_of(m, desc)),
{
    let after = export_of(m, cap);
    if !is_from_peer(m, cap) {
        if is_exported(m.exports, cap) {
            let i = export_index(m.exports, cap);
            assert(exports_at(m.exports, i, cap));
        } else {
            assert forall|i: int, j: int|
                0 <= i < after.exports.len() && 0 <= j < after.exports.len() && after.exports[i].live
                    && after.exports[j].live && after.exports[i].cap
                    == after.exports[j].cap implies i == j by {
                let n = m.exports.len() as int;
                if i == n && j < n {
                    assert(exports_at(m.exports, j, cap));
                }
                if j == n && i < n {
                    assert(exports_at(m.exports, i, cap));
                }
            }
        }
    }
}

} // verus!
