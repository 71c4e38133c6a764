use hearth::capability::{Capability, Route};
use hearth::directory::{accept_offer, client_offer, server_offer, PeerDirectory};
use hearth::peer::{CapDescriptor, Origin, PeerConnection, PeerError};
use hearth::permissions::Permissions;
use hearth::process::PeerId;

fn local(mailbox: usize) -> Capability {
    Capability { route: Route::Local { mailbox }, perms: Permissions::send() }
}

#[test]
fn peer_ids_are_assigned_in_order() {
    let mut directory = PeerDirectory::new();
    assert_eq!(directory.allocate(), Some(PeerId(0)));
    assert_eq!(directory.allocate(), Some(PeerId(1)));
    assert_eq!(directory.allocate(), Some(PeerId(2)));
    assert_eq!(directory.len(), 3);
    assert_eq!(directory.find_peer(PeerId(1)), None);
    assert_eq!(directory.find_peer(PeerId(7)), None);
}

#[test]
fn find_peer_gives_reachable_peers_only() {
    let mut directory = PeerDirectory::new();
    let a = directory.allocate().unwrap();
    let b = directory.allocate().unwrap();
    assert!(directory.set_reachable(a, local(1)));
    assert!(directory.set_reachable(b, local(2)));
    assert!(!directory.set_reachable(PeerId(9), local(3)));
    assert_eq!(directory.find_peer(a), Some(local(1)));
    assert_eq!(directory.find_peer(b), Some(local(2)));
    directory.mark_dead(a);
    directory.mark_dead(PeerId(9));
    assert_eq!(directory.find_peer(a), None);
    assert!(!directory.set_reachable(a, local(4)));
    assert_eq!(directory.find_peer(a), None);
    assert_eq!(directory.find_peer(b), Some(local(2)));
    assert_eq!(directory.allocate(), Some(PeerId(2)));
}

#[test]
fn offers_cross_the_connection() {
    let mut server_side = PeerConnection::new(PeerId(5));
    let mut client_side = PeerConnection::new(PeerId(0));
    let offer = server_offer(&mut server_side, local(1));
    assert_eq!(offer.new_id, PeerId(5));
    assert_eq!(
        offer.peer_provider,
        CapDescriptor { origin: Origin::Sender, id: 0, perms: Permissions::send() }
    );
    let provider = accept_offer(&mut client_side, offer.peer_provider).unwrap();
    assert_eq!(provider.route, Route::Remote { peer: 0, cap: 0 });
    let answer = client_offer(&mut client_side, local(8));
    let api = accept_offer(&mut server_side, answer.peer_api).unwrap();
    assert_eq!(api.route, Route::Remote { peer: 5, cap: 0 });
    assert_eq!(api.perms, Permissions::send());
    let stale = CapDescriptor { origin: Origin::Receiver, id: 3, perms: Permissions::send() };
    assert_eq!(accept_offer(&mut server_side, stale), Err(PeerError::UnknownCapability));
}
