use hearth::pid::{parse_pid, parse_u32, MaybeLocalPid};
use hearth::process::{LocalProcessId, PeerId, ProcessId};

#[test]
fn pid_parse_numbers() {
    assert_eq!(parse_u32(b"0"), Some(0));
    assert_eq!(parse_u32(b"42"), Some(42));
    assert_eq!(parse_u32(b"007"), Some(7));
    assert_eq!(parse_u32(b"4294967295"), Some(u32::MAX));
    assert_eq!(parse_u32(b"000000000004294967295"), Some(u32::MAX));
    assert_eq!(parse_u32(b"4294967296"), None);
    assert_eq!(parse_u32(b"99999999999999999999999999"), None);
    assert_eq!(parse_u32(b""), None);
    assert_eq!(parse_u32(b"-1"), None);
    assert_eq!(parse_u32(b"+1"), None);
    assert_eq!(parse_u32(b"1 "), None);
    assert_eq!(parse_u32(b"12a"), None);
    assert_eq!(parse_u32(b"4294967296x"), None);
}

#[test]
fn pid_parse_local_and_global() {
    assert_eq!(parse_pid(b"17"), Some(MaybeLocalPid::Local(LocalProcessId(17))));
    assert_eq!(parse_pid(b"3:17"), Some(MaybeLocalPid::Global(ProcessId(0x3_0000_0011))));
    assert_eq!(parse_pid(b"0:0"), Some(MaybeLocalPid::Global(ProcessId(0))));
    assert_eq!(
        parse_pid(b"4294967295:4294967295"),
        Some(MaybeLocalPid::Global(ProcessId(u64::MAX)))
    );
    for bad in ["", ":", "3:", ":17", "3:17:1", "3::17", "a:1", "1:b", "4294967296:1", "1:4294967296", "1.5"] {
        assert_eq!(parse_pid(bad.as_bytes()), None, "{:?}", bad);
    }
}

#[test]
fn pid_to_global_fills_in_the_peer() {
    let local = MaybeLocalPid::Local(LocalProcessId(5));
    assert_eq!(local.to_global_pid(PeerId(2)), ProcessId(0x2_0000_0005));
    assert_eq!(local.to_global_pid(PeerId(2)).split(), (PeerId(2), LocalProcessId(5)));
    let global = MaybeLocalPid::Global(ProcessId(0x9_0000_0001));
    assert_eq!(global.to_global_pid(PeerId(2)), ProcessId(0x9_0000_0001));
}

#[test]
fn kill_targets_peer_and_process() {
    use_kill();
}

fn use_kill() {
    let here = PeerId(4);
    let local = hearth::pid::Kill { process: parse_pid(b"12").unwrap() };
    assert_eq!(local.target(here), (PeerId(4), LocalProcessId(12)));
    let global = hearth::pid::Kill { process: parse_pid(b"9:12").unwrap() };
    assert_eq!(global.target(here), (PeerId(9), LocalProcessId(12)));
}
