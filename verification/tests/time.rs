use hearth::capability::{Capability, Route};
use hearth::permissions::Permissions;
use hearth::process::{ProcessError, ProcessFactory, ProcessMetadata, Received, SendOutcome};
use hearth::time::{get_unix_time, parse_unix_time, service_name, unix_time_reply};

#[test]
fn unix_time_is_read_from_decimal_digits() {
    assert_eq!(parse_unix_time(b"0"), Some(0));
    assert_eq!(parse_unix_time(b"007"), Some(7));
    assert_eq!(parse_unix_time(b"1698480000000000000"), Some(1_698_480_000_000_000_000));
    assert_eq!(parse_unix_time(b""), None);
    assert_eq!(parse_unix_time(b"12a"), None);
    assert_eq!(parse_unix_time(b"-1"), None);
    assert_eq!(parse_unix_time(b" 1"), None);
}

#[test]
fn unix_time_fits_128_bits() {
    let largest = u128::MAX.to_string();
    assert_eq!(largest, "340282366920938463463374607431768211455");
    assert_eq!(parse_unix_time(largest.as_bytes()), Some(u128::MAX));
    assert_eq!(parse_unix_time(b"340282366920938463463374607431768211456"), None);
    assert_eq!(parse_unix_time(b"340282366920938463463374607431768211460"), None);
    assert_eq!(parse_unix_time(b"3402823669209384634633746074317682114550"), None);
    assert_eq!(
        parse_unix_time(b"0340282366920938463463374607431768211455"),
        Some(u128::MAX)
    );
}

#[test]
fn unix_time_request_and_answer() {
    let mut factory = ProcessFactory::new(8);
    let service = factory.spawn(ProcessMetadata::default(), None).unwrap();
    let guest = factory.spawn(ProcessMetadata::default(), None).unwrap();
    let to_service = factory.import(guest.pid, service.cap).unwrap();
    let pending = get_unix_time(&mut factory, guest.pid, to_service).unwrap();
    assert_eq!(pending.reply, 2);
    let reply_cap = Capability { route: Route::Local { mailbox: 2 }, perms: Permissions::send() };
    match factory.try_recv(service.pid, service.mailbox) {
        Ok(Some(Received::Message { payload, caps })) => {
            assert_eq!(payload, b"null");
            assert_eq!(caps.len(), 1);
            assert_eq!(factory.table(service.pid).unwrap().resolve(caps[0]), Some(reply_cap));
            factory.send(service.pid, caps[0], b"1700000000000000000".to_vec(), &vec![]).unwrap();
        }
        other => panic!("unexpected: {:?}", other),
    }
    let answer = factory.try_recv(guest.pid, pending.reply).unwrap().unwrap();
    assert_eq!(unix_time_reply(&answer), Some(1_700_000_000_000_000_000));
    assert_eq!(service_name(), "hearth.UnixTime");
}

#[test]
fn unix_time_needs_send() {
    let mut factory = ProcessFactory::new(8);
    let service = factory.spawn(ProcessMetadata::default(), None).unwrap();
    let guest = factory.spawn(ProcessMetadata::default(), None).unwrap();
    let no_send = Capability { route: service.cap.route, perms: Permissions::monitor() };
    let weak = factory.import(guest.pid, no_send).unwrap();
    assert_eq!(
        get_unix_time(&mut factory, guest.pid, weak).unwrap_err(),
        ProcessError::PermissionDenied
    );
    assert_eq!(factory.post().len(), 2);
    let send_only = Capability { route: service.cap.route, perms: Permissions::send() };
    let plain = factory.import(guest.pid, send_only).unwrap();
    let pending = get_unix_time(&mut factory, guest.pid, plain).unwrap();
    assert!(matches!(pending.outcome, SendOutcome::Delivered));
    assert_eq!(factory.post().pending(service.mailbox), 1);
}

#[test]
fn unix_time_of_a_down_is_none() {
    let mut factory = ProcessFactory::new(8);
    let service = factory.spawn(ProcessMetadata::default(), None).unwrap();
    let guest = factory.spawn(ProcessMetadata::default(), None).unwrap();
    let to_service = factory.import(guest.pid, service.cap).unwrap();
    let pending = get_unix_time(&mut factory, guest.pid, to_service).unwrap();
    factory.kill_process(service.pid);
    let answer = factory.try_recv(guest.pid, pending.reply).unwrap().unwrap();
    assert!(matches!(answer, Received::Down { .. }));
    assert_eq!(unix_time_reply(&answer), None);
    let text = Received::Message { payload: b"soon".to_vec(), caps: vec![] };
    assert_eq!(unix_time_reply(&text), None);
}
