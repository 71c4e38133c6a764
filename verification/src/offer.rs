//! The offers that two peers exchange after authentication, as bytes.
//!
//! A capability descriptor is ten bytes: one for the side that exported the
//! capability, eight for the index in that side's export table, least
//! significant byte first, and one for the permissions. The server's offer is
//! the four bytes of the identifier assigned to the client, least significant
//! first, and the descriptor of the peer directory; the client's offer is the
//! descriptor of its peer interface.

use vstd::bytes::{
    lemma_auto_spec_u32_to_from_le_bytes, lemma_auto_spec_u64_to_from_le_bytes,
    spec_u32_from_le_bytes, spec_u32_to_le_bytes, spec_u64_from_le_bytes, spec_u64_to_le_bytes,
    u32_from_le_bytes, u32_to_le_bytes, u64_from_le_bytes, u64_to_le_bytes,
};
use vstd::prelude::*;
use vstd::slice::slice_subrange;
use crate::peer::{CapDescriptor, ClientOffer, Origin, ServerOffer};
use crate::permissions::Permissions;
use crate::process::PeerId;

verus! {

/// The number of bytes of a descriptor.
pub const DESCRIPTOR_LEN: usize = 10;

/// The number of bytes of a server's offer.
pub const SERVER_OFFER_LEN: usize = 14;

/// The byte that stands for an origin.
pub open spec fn origin_byte(origin: Origin) -> u8 {
    match origin {
        Origin::Sender => 0u8,
        Origin::Receiver => 1u8,
    }
}

/// The bytes of a descriptor.
pub open spec fn descriptor_bytes(desc: CapDescriptor) -> Seq<u8> {
    seq![origin_byte(desc.origin)] + spec_u64_to_le_bytes(desc.id) + seq![
        desc.perms.spec_bits() as u8,
    ]
}

/// Whether bytes stand for a descriptor: ten bytes, the first an origin, the
/// last a set of permissions.
pub open spec fn is_descriptor(bytes: Seq<u8>) -> bool {
    bytes.len() == DESCRIPTOR_LEN && bytes[0] <= 1 && bytes[9] <= 0xF
}

/// Whether `desc` is the descriptor that `bytes` stand for.
pub open spec fn reads_as(bytes: Seq<u8>, desc: CapDescriptor) -> bool {
    &&& origin_byte(desc.origin) == bytes[0]
    &&& desc.id == spec_u64_from_le_bytes(bytes.subrange(1, 9))
    &&& desc.perms.spec_bits() == bytes[9] as u32
    &&& desc.perms.valid()
}

/// The bytes of a server's offer.
pub open spec fn server_offer_bytes(offer: ServerOffer) -> Seq<u8> {
    spec_u32_to_le_bytes(offer.new_id.0) + descriptor_bytes(offer.peer_provider)
}

/// Whether bytes stand for a server's offer.
pub open spec fn is_server_offer(bytes: Seq<u8>) -> bool {
    bytes.len() == SERVER_OFFER_LEN && is_descriptor(bytes.subrange(4, 14))
}

/// The bytes of `desc`, as [`descriptor_bytes`] says.
pub fn encode_descriptor(desc: &CapDescriptor) -> (bytes: Vec<u8>)
    ensures
        bytes@ == descriptor_bytes(*desc),
        bytes@.len() == DESCRIPTOR_LEN,
{
    let mut bytes: Vec<u8> = Vec::new();
    bytes.push(
        match desc.origin {
            Origin::Sender => 0,
            Origin::Receiver => 1,
        },
    );
    let id = u64_to_le_bytes(desc.id);
    bytes.extend_from_slice(id.as_slice());
    let bits = desc.perms.bits();
    bytes.push(bits as u8);
    assert(bytes@ =~= descriptor_bytes(*desc));
    bytes
}

/// The descriptor that `bytes` stand for, where they stand for one.
pub fn decode_descriptor(bytes: &[u8]) -> (r: Option<CapDescriptor>)
    ensures
        r is Some <==> is_descriptor(bytes@),
        r matches Some(desc) ==> reads_as(bytes@, desc),
{
    if bytes.len() != DESCRIPTOR_LEN {
        return None;
    }
    let origin = match bytes[0] {
        0 => Origin::Sender,
        1 => Origin::Receiver,
        _ => {
            return None;
        },
    };
    let perms = match Permissions::from_bits(bytes[9] as u32) {
        Some(perms) => perms,
        None => {
            return None;
        },
    };
    let id = u64_from_le_bytes(slice_subrange(bytes, 1, 9));
    Some(CapDescriptor { origin, id, perms })
}

/// The bytes of `offer`, as [`server_offer_bytes`] says.
pub fn encode_server_offer(offer: &ServerOffer) -> (bytes: Vec<u8>)
    ensures
        bytes@ == server_offer_bytes(*offer),
        bytes@.len() == SERVER_OFFER_LEN,
{
    let mut bytes = u32_to_le_bytes(offer.new_id.0);
    let descriptor = encode_descriptor(&offer.peer_provider);
    bytes.extend_from_slice(descriptor.as_slice());
    assert(bytes@ =~= server_offer_bytes(*offer));
    bytes
}

/// The server's offer that `bytes` stand for, where they stand for one.
pub fn decode_server_offer(bytes: &[u8]) -> (r: Option<ServerOffer>)
    ensures
        r is Some <==> is_server_offer(bytes@),
        r matches Some(offer) ==> offer.new_id.0 == spec_u32_from_le_bytes(bytes@.subrange(0, 4))
            && reads_as(bytes@.subrange(4, 14), offer.peer_provider),
{
    if bytes.len() != SERVER_OFFER_LEN {
        return None;
    }
    match decode_descriptor(slice_subrange(bytes, 4, 14)) {
        None => None,
        Some(peer_provider) => {
            let new_id = u32_from_le_bytes(slice_subrange(bytes, 0, 4));
            Some(ServerOffer { new_id: PeerId(new_id), peer_provider })
        },
    }
}

/// The bytes of `offer`: those of its descriptor.
pub fn encode_client_offer(offer: &ClientOffer) -> (bytes: Vec<u8>)
    ensures
        bytes@ == descriptor_bytes(offer.peer_api),
        bytes@.len() == DESCRIPTOR_LEN,
{
    encode_descriptor(&offer.peer_api)
}

/// The client's offer that `bytes` stand for, where they stand for one.
pub fn decode_client_offer(bytes: &[u8]) -> (r: Option<ClientOffer>)
    ensures
        r is Some <==> is_descriptor(bytes@),
        r matches Some(offer) ==> reads_as(bytes@, offer.peer_api),
{
    match decode_descriptor(bytes) {
        None => None,
        Some(peer_api) => Some(ClientOffer { peer_api }),
    }
}

/// A descriptor comes back from its bytes: the bytes of a descriptor with
/// valid permissions stand for a descriptor, and only for that one.
pub proof fn lemma_descriptor_round_trip(desc: CapDescriptor, read: CapDescriptor)
    requires
        desc.perms.valid(),
        reads_as(descriptor_bytes(desc), read),
    ensures
        is_descriptor(descriptor_bytes(desc)),
        read == desc,
{
    lemma_auto_spec_u64_to_from_le_bytes();
    let bytes = descriptor_bytes(desc);
    let id = spec_u64_to_le_bytes(desc.id);
    assert(id.len() == 8);
    assert(bytes.subrange(1, 9) =~= id);
    desc.perms.lemma_view();
    read.perms.lemma_view();
    let bits = desc.perms.spec_bits();
    assert(bits <= 0xF);
    assert(bytes[9] == bits as u8);
    assert(bytes[0] == origin_byte(desc.origin));
    assert(read.perms.spec_bits() == bits);
    read.perms.lemma_view_injective(desc.perms);
}

/// A server's offer comes back from its bytes.
pub proof fn lemma_server_offer_round_trip(offer: ServerOffer, read: ServerOffer)
    requires
        offer.peer_provider.perms.valid(),
        read.new_id.0 == spec_u32_from_le_bytes(server_offer_bytes(offer).subrange(0, 4)),
        reads_as(server_offer_bytes(offer).subrange(4, 14), read.peer_provider),
    ensures
        is_server_offer(server_offer_bytes(offer)),
        read == offer,
{
    lemma_auto_spec_u32_to_from_le_bytes();
    lemma_auto_spec_u64_to_from_le_bytes();
    let bytes = server_offer_bytes(offer);
    let id = spec_u32_to_le_bytes(offer.new_id.0);
    assert(id.len() == 4);
    assert(spec_u64_to_le_bytes(offer.peer_provider.id).len() == 8);
    assert(bytes.subrange(0, 4) =~= id);
    assert(bytes.subrange(4, 14) =~= descriptor_bytes(offer.peer_provider));
    lemma_descriptor_round_trip(offer.peer_provider, read.peer_provider);
}

} // verus!
