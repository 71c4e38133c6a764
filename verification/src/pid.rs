//! Process identifiers as text: `local`, for a process of this peer, or
//! `peer:local`, both in decimal.

use vstd::prelude::*;
use vstd::slice::slice_subrange;
use crate::process::{LocalProcessId, PeerId, ProcessId};

verus! {

/// A process identifier that names its peer or leaves it open.
#[derive(Clone, Copy, Debug, PartialEq, Eq, Structural)]
pub enum MaybeLocalPid {
    /// A process of the peer that the identifier names.
    Global(ProcessId),
    /// A process of the peer at hand.
    Local(LocalProcessId),
}

impl MaybeLocalPid {
    /// The identifier with its peer: `peer` where none is named.
    pub fn to_global_pid(self, peer: PeerId) -> (id: ProcessId)
        ensures
            id.0 == (match self {
                MaybeLocalPid::Global(global) => global.0 as int,
                MaybeLocalPid::Local(local) => peer.0 as int * 0x1_0000_0000 + local.0 as int,
            }),
    {
        match self {
            MaybeLocalPid::Global(global) => global,
            MaybeLocalPid::Local(local) => ProcessId::from_peer_process(peer, local),
        }
    }
}

/// The command that ends a process.
#[derive(Clone, Copy, Debug, PartialEq, Eq, Structural)]
pub struct Kill {
    /// Either a global or a local process identifier.
    pub process: MaybeLocalPid,
}

impl Kill {
    /// The peer and the process that the command is for, when it is given at
    /// `this_peer`.
    pub fn target(&self, this_peer: PeerId) -> (parts: (PeerId, LocalProcessId))
        ensures
            parts == (match self.process {
                MaybeLocalPid::Global(global) => (
                    PeerId((global.0 / 0x1_0000_0000) as u32),
                    LocalProcessId((global.0 % 0x1_0000_0000) as u32),
                ),
                MaybeLocalPid::Local(local) => (this_peer, local),
            }),
    {
        proof {
            crate::process::lemma_process_id_round_trip(
                this_peer,
                match self.process {
                    MaybeLocalPid::Local(local) => local,
                    MaybeLocalPid::Global(_) => LocalProcessId(0),
                },
            );
        }
        self.process.to_global_pid(this_peer).split()
    }
}

/// The byte `:`.
pub const COLON: u8 = 58;

/// Whether a byte is a decimal digit.
pub open spec fn is_digit(byte: u8) -> bool {
    48 <= byte <= 57
}

/// Whether a text is one or more decimal digits.
pub open spec fn is_decimal(text: Seq<u8>) -> bool {
    text.len() > 0 && forall|i: int| 0 <= i < text.len() ==> is_digit(#[trigger] text[i])
}

/// The number that decimal digits stand for.
pub open spec fn decimal_value(text: Seq<u8>) -> nat
    decreases text.len(),
{
    if text.len() == 0 {
        0
    } else {
        decimal_value(text.drop_last()) * 10 + (text.last() - 48) as nat
    }
}

/// The number that a text stands for, where the text is decimal digits and the
/// number fits 32 bits.
pub open spec fn u32_of(text: Seq<u8>) -> Option<u32> {
    if is_decimal(text) && decimal_value(text) <= u32::MAX {
        Some(decimal_value(text) as u32)
    } else {
        None
    }
}

/// Whether a text holds a colon.
pub open spec fn has_colon(text: Seq<u8>) -> bool {
    exists|i: int| 0 <= i < text.len() && text[i] == COLON
}

/// The position of the first colon of a text that holds one.
pub open spec fn first_colon(text: Seq<u8>) -> int {
    choose|i: int|
        0 <= i < text.len() && text[i] == COLON && forall|k: int| 0 <= k < i ==> text[k] != COLON
}

/// The process identifier that a text stands for, if it stands for one: a
/// number alone is a local identifier; two numbers around a colon are a peer
/// and a local identifier. Each number has to fit 32 bits.
pub open spec fn pid_of(text: Seq<u8>) -> Option<MaybeLocalPid> {
    if has_colon(text) {
        let at = first_colon(text);
        match (u32_of(text.take(at)), u32_of(text.skip(at + 1))) {
            (Some(peer), Some(local)) => Some(
                MaybeLocalPid::Global(
                    ProcessId((peer as int * 0x1_0000_0000 + local as int) as u64),
                ),
            ),
            _ => None,
        }
    } else {
        match u32_of(text) {
            Some(local) => Some(MaybeLocalPid::Local(LocalProcessId(local))),
            None => None,
        }
    }
}

/// The value of a prefix of decimal digits is no more than the value of the
/// whole.
pub proof fn lemma_decimal_prefix(text: Seq<u8>, count: int)
    requires
        0 <= count <= text.len(),
        forall|i: int| 0 <= i < text.len() ==> is_digit(#[trigger] text[i]),
    ensures
        decimal_value(text.take(count)) <= decimal_value(text),
    decreases text.len() - count,
{
    if count == text.len() {
        assert(text.take(count) =~= text);
    } else {
        lemma_decimal_prefix(text, count + 1);
        let longer = text.take(count + 1);
        assert(longer.drop_last() =~= text.take(count));
        assert(is_digit(text[count]));
        assert(longer.last() == text[count]);
    }
}

/// The number that `text` stands for, as [`u32_of`] says.
pub fn parse_u32(text: &[u8]) -> (r: Option<u32>)
    ensures
        r == u32_of(text@),
{
    if text.len() == 0 {
        return None;
    }
    let mut value: u64 = 0;
    let mut i: usize = 0;
    proof {
        assert(text@.take(0) =~= Seq::<u8>::empty());
    }
    while i < text.len()
        invariant
            i <= text@.len(),
            text@.len() > 0,
            value == decimal_value(text@.take(i as int)),
            value <= u32::MAX,
            forall|k: int| 0 <= k < i ==> is_digit(#[trigger] text@[k]),
        decreases text@.len() - i,
    {
        let byte = text[i];
        if byte < 48 || byte > 57 {
            assert(!is_digit(text@[i as int]));
            return None;
        }
        let ghost prefix = text@.take(i + 1);
        proof {
            assert(prefix.drop_last() =~= text@.take(i as int));
            assert(prefix.last() == byte);
        }
        value = value * 10 + (byte - 48) as u64;
        if value > u32::MAX as u64 {
            proof {
                if is_decimal(text@) {
                    lemma_decimal_prefix(text@, i + 1);
                }
            }
            return None;
        }
        i = i + 1;
    }
    proof {
        assert(text@.take(i as int) =~= text@);
    }
    Some(value as u32)
}

/// The process identifier that `text` stands for, as [`pid_of`] says.
pub fn parse_pid(text: &[u8]) -> (r: Option<MaybeLocalPid>)
    ensures
        r == pid_of(text@),
{
    let mut at: usize = 0;
    while at < text.len() && text[at] != COLON
        invariant
            at <= text@.len(),
            forall|k: int| 0 <= k < at ==> text@[k] != COLON,
        decreases text@.len() - at,
    {
        at = at + 1;
    }
    if at == text.len() {
        match parse_u32(text) {
            Some(local) => Some(MaybeLocalPid::Local(LocalProcessId(local))),
            None => None,
        }
    } else {
        proof {
            let chosen = first_colon(text@);
            assert(text@[at as int] == COLON);
            assert(chosen == at) by {
                if chosen < at {
                    assert(text@[chosen] != COLON);
                }
                if at < chosen {
                    assert(text@[at as int] != COLON);
                }
            }
        }
        let head = slice_subrange(text, 0, at);
        let tail = slice_subrange(text, at + 1, text.len());
        proof {
            assert(head@ =~= text@.take(at as int));
            assert(tail@ =~= text@.skip(at + 1));
        }
        match parse_u32(head) {
            None => None,
            Some(peer) => match parse_u32(tail) {
                None => None,
                Some(local) => Some(
                    MaybeLocalPid::Global(
                        ProcessId::from_peer_process(PeerId(peer), LocalProcessId(local)),
                    ),
                ),
            },
        }
    }
}

} // verus!
