use hearth::daemon::{plan_socket, DaemonPlugin, ListenError, Probe, SocketPlan};

#[test]
fn live_socket_fails_with_address_in_use() {
    assert_eq!(plan_socket(Probe::Connected), SocketPlan::Fail(ListenError::AddrInUse));
}

#[test]
fn stale_socket_is_removed_and_recreated() {
    assert_eq!(plan_socket(Probe::ConnectionRefused), SocketPlan::RemoveThenBind);
}

#[test]
fn missing_socket_is_created() {
    assert_eq!(plan_socket(Probe::NotFound), SocketPlan::Bind);
}

#[test]
fn probe_errors_are_handed_on() {
    assert_eq!(plan_socket(Probe::NoSocketPath), SocketPlan::Fail(ListenError::NotFound));
    assert_eq!(plan_socket(Probe::Failed), SocketPlan::Fail(ListenError::Probe));
}

#[test]
fn daemon_plugin_hook_name() {
    let _plugin = DaemonPlugin::new();
    assert_eq!(DaemonPlugin::hook_name(), "hearth.init.Daemon");
}
