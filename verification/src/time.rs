//! The time of day, as a process asks the time service for it.
//!
//! The service answers a request that carries nothing with the nanoseconds
//! since the Unix epoch, written in decimal digits.

use vstd::prelude::*;
use crate::capability::Handle;
use crate::pid::{decimal_value, is_decimal, is_digit, lemma_decimal_prefix};
use crate::process::{LocalProcessId, ProcessError, ProcessFactory, Received, ReceivedModel};
use crate::request::{request, request_check, request_of, request_outcome, Pending};

verus! {

/// The payload of a request that carries nothing: the text `null`.
pub open spec fn empty_request() -> Seq<u8> {
    seq![110u8, 117u8, 108u8, 108u8]
}

/// The nanoseconds that a text stands for, where the text is decimal digits
/// and the number fits 128 bits.
pub open spec fn unix_time_of(text: Seq<u8>) -> Option<u128> {
    if is_decimal(text) && decimal_value(text) <= u128::MAX {
        Some(decimal_value(text) as u128)
    } else {
        None
    }
}

/// The nanoseconds that an answer of the time service stands for. A `Down`
/// in place of the answer, or an answer that is no number, stands for none.
pub open spec fn unix_time_in(received: ReceivedModel) -> Option<u128> {
    match received {
        ReceivedModel::Message { payload, .. } => unix_time_of(payload),
        ReceivedModel::Down { .. } => None,
    }
}

/// The name under which the time service is registered.
pub fn service_name() -> (name: String)
    ensures
        name@ == "hearth.UnixTime"@,
{
    "hearth.UnixTime".to_owned()
}

/// The number that `text` stands for, as [`unix_time_of`] says.
pub fn parse_unix_time(text: &[u8]) -> (r: Option<u128>)
    ensures
        r == unix_time_of(text@),
{
    if text.len() == 0 {
        return None;
    }
    let mut value: u128 = 0;
    let mut i: usize = 0;
    proof {
        assert(text@.take(0) =~= Seq::<u8>::empty());
    }
    while i < text.len()
        invariant
            i <= text@.len(),
            text@.len() > 0,
            value == decimal_value(text@.take(i as int)),
            forall|k: int| 0 <= k < i ==> is_digit(#[trigger] text@[k]),
        decreases text@.len() - i,
    {
        let byte = text[i];
        if byte < 48 || byte > 57 {
            assert(!is_digit(text@[i as int]));
            return None;
        }
        let digit: u128 = (byte - 48) as u128;
        let ghost prefix = text@.take(i + 1);
        proof {
            assert(prefix.drop_last() =~= text@.take(i as int));
            assert(prefix.last() == byte);
        }
        if value > (u128::MAX - digit) / 10 {
            proof {
                assert(decimal_value(prefix) > u128::MAX);
                if is_decimal(text@) {
                    lemma_decimal_prefix(text@, i + 1);
                }
            }
            return None;
        }
        value = value * 10 + digit;
        i = i + 1;
    }
    proof {
        assert(text@.take(i as int) =~= text@);
    }
    Some(value)
}

/// Asks the time service behind `service` for the time, as process `pid`: a
/// request that carries nothing and no capability but the one to the reply
/// mailbox. It is refused, and nothing changes, unless `service` grants
/// `SEND`.
pub fn get_unix_time(factory: &mut ProcessFactory, pid: LocalProcessId, service: Handle) -> (r:
    Result<Pending, ProcessError>)
    requires
        old(factory).wf(),
    ensures
        final(factory).wf(),
        r is Ok <==> request_check(old(factory)@, pid, service, Seq::<Handle>::empty()) is Ok,
        r matches Err(e) ==> request_check(old(factory)@, pid, service, Seq::<Handle>::empty())
            == Err::<(), ProcessError>(e) && final(factory)@ == old(factory)@,
        r matches Ok(pending) ==> pending.reply == old(factory)@.post.len() && pending.reply_cap.0
            == old(factory)@.processes[pid.0 as int].issued && pending.outcome@ == request_outcome(
            old(factory)@,
            pid,
            service,
            empty_request(),
            Seq::<Handle>::empty(),
        ) && final(factory)@ == request_of(
            old(factory)@,
            pid,
            service,
            empty_request(),
            Seq::<Handle>::empty(),
        ),
{
    let mut payload: Vec<u8> = Vec::new();
    payload.push(110);
    payload.push(117);
    payload.push(108);
    payload.push(108);
    assert(payload@ =~= empty_request());
    let args: Vec<Handle> = Vec::new();
    assert(args@ =~= Seq::<Handle>::empty());
    request(factory, pid, service, payload, &args)
}

/// The time in what arrived in the reply mailbox, as [`unix_time_in`] says.
pub fn unix_time_reply(received: &Received) -> (r: Option<u128>)
    ensures
        r == unix_time_in(received@),
{
    match received {
        Received::Message { payload, .. } => parse_unix_time(payload.as_slice()),
        Received::Down { .. } => None,
    }
}

} // verus!
