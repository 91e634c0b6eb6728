use wc3proxy::addr::{IpAddress, SocketAddress};
use wc3proxy::ui::{println_log, AppEvents, AppState};
use wc3proxy::wc3proxy::Proxy;

fn ip(a: u8, b: u8, c: u8, d: u8) -> IpAddress {
    IpAddress { a, b, c, d }
}

fn target(a: u8, b: u8, c: u8, d: u8, port: u16) -> SocketAddress {
    SocketAddress { ip: ip(a, b, c, d), port }
}

fn lines(v: &[&str]) -> Vec<String> {
    v.iter().map(|s| s.to_string()).collect()
}

fn app(ip_text: &str, port_text: &str, proxy: Proxy) -> AppState {
    AppState::new(ip_text.to_string(), port_text.to_string(), None, Vec::new(), proxy)
}

#[test]
fn println_log_prepends_and_keeps_three_lines() {
    let empty: Vec<String> = Vec::new();
    assert_eq!(println_log(&empty, "a"), lines(&["a"]));
    assert_eq!(println_log(&lines(&["a"]), "b"), lines(&["b", "a"]));
    assert_eq!(println_log(&lines(&["b", "a"]), "c"), lines(&["c", "b", "a"]));
    assert_eq!(println_log(&lines(&["c", "b", "a"]), "d"), lines(&["d", "c", "b"]));
}

#[test]
fn app_state_new_keeps_the_fields() {
    let proxy = Proxy::new(ip(10, 0, 0, 2), None);
    let data = AppState::new(
        "9.9.9.9".to_string(),
        "6112".to_string(),
        None,
        Vec::new(),
        proxy,
    );
    assert_eq!(data.ip, "9.9.9.9");
    assert_eq!(data.port, "6112");
    assert_eq!(data.old_addr, None);
    assert!(data.log.is_empty());
}

#[test]
fn port_boundary_1023_is_rejected_and_1024_accepted() {
    // 1023 is still in the reserved range: treated as "no valid target"
    let mut data = app("192.168.1.50", "1023", Proxy::new(ip(10, 0, 0, 2), None));
    let out = AppEvents::on_key_up(&mut data);
    assert!(out.spawn.is_none());
    assert!(!out.stop);
    assert!(!data.state.udp_run);

    // 1024 is the first acceptable port
    let mut data = app("192.168.1.50", "1024", Proxy::new(ip(10, 0, 0, 2), None));
    let out = AppEvents::on_key_up(&mut data);
    let plan = out.spawn.expect("port 1024 must be accepted");
    assert_eq!(plan.target, target(192, 168, 1, 50, 1024));
    assert!(data.state.udp_run);
}

#[test]
fn entering_a_target_starts_the_relays_and_logs_the_endpoints() {
    // no persisted address; the user enters 192.168.1.50:6112
    let mut data = app("192.168.1.50", "6112", Proxy::new(ip(10, 0, 0, 2), None));
    let out = AppEvents::on_key_up(&mut data);
    let plan = out.spawn.expect("a fresh valid target must spawn the relays");
    assert_eq!(plan.target, target(192, 168, 1, 50, 6112));
    assert_eq!(plan.local_mask, target(10, 0, 0, 2, 6112));
    // the log is newest first: the udp line was emitted first, then the tcp line
    assert_eq!(
        data.log,
        lines(&["listen[tcp][10.0.0.2:6112]", "listen[udp][10.0.0.2:6112]"])
    );
    assert_eq!(data.old_addr, Some(target(192, 168, 1, 50, 6112)));
}

#[test]
fn clearing_the_address_field_stops_the_relays() {
    let mut data = app("192.168.1.50", "6112", Proxy::new(ip(10, 0, 0, 2), None));
    let _ = AppEvents::on_key_up(&mut data);
    assert!(data.state.udp_run);

    // the user clears the address field
    data.ip = String::new();
    let out = AppEvents::on_key_up(&mut data);
    assert!(out.spawn.is_none());
    assert!(out.stop, "retired loops must be joined");
    assert!(!data.state.udp_run && !data.state.tcp_run);
    assert_eq!(
        data.log,
        lines(&[
            "stop[tcp]",
            "stop[udp]",
            "listen[tcp][10.0.0.2:6112]",
        ])
    );
}

#[test]
fn stopping_twice_adds_no_second_batch_of_lines() {
    let mut data = app("192.168.1.50", "6112", Proxy::new(ip(10, 0, 0, 2), None));
    let _ = AppEvents::on_key_up(&mut data);
    data.ip = String::new();
    let _ = AppEvents::on_key_up(&mut data);
    let log_after_first_stop = data.log.clone();
    let out = AppEvents::on_key_up(&mut data);
    assert!(out.spawn.is_none());
    assert!(!out.stop);
    assert_eq!(data.log, log_after_first_stop);
}

#[test]
fn resubmitting_the_same_target_adds_no_lines() {
    let mut data = app("192.168.1.50", "6112", Proxy::new(ip(10, 0, 0, 2), None));
    let _ = AppEvents::on_key_up(&mut data);
    let log_after_start = data.log.clone();
    let out = AppEvents::on_key_up(&mut data);
    assert!(out.spawn.is_none());
    assert!(!out.stop);
    assert_eq!(data.log, log_after_start);
    assert_eq!(data.state.udp_gen, 1);
}

#[test]
fn window_connect_restores_the_persisted_target() {
    let saved = target(192, 168, 1, 50, 6112);
    let proxy = Proxy::new(ip(10, 0, 0, 2), Some(saved));
    let mut data = app("9.9.9.9", "6112", proxy);
    let plan = AppEvents::on_window_connected(&mut data).expect("a saved target must be applied");
    assert_eq!(plan.target, saved);
    assert_eq!(data.ip, "192.168.1.50");
    assert_eq!(data.port, "6112");
    assert!(data.state.udp_run);
    assert_eq!(
        data.log,
        lines(&["listen[tcp][10.0.0.2:6112]", "listen[udp][10.0.0.2:6112]"])
    );
}

#[test]
fn window_connect_without_a_persisted_target_does_nothing() {
    let proxy = Proxy::new(ip(10, 0, 0, 2), None);
    let mut data = app("9.9.9.9", "6112", proxy);
    let out = AppEvents::on_window_connected(&mut data);
    assert!(out.is_none());
    assert_eq!(data.ip, "9.9.9.9");
    assert!(data.log.is_empty());
    assert!(!data.state.udp_run);
}

#[test]
fn an_unparsable_port_stops_an_active_relay() {
    let mut data = app("192.168.1.50", "6112", Proxy::new(ip(10, 0, 0, 2), None));
    let _ = AppEvents::on_key_up(&mut data);
    assert!(data.state.udp_run);
    data.port = "61a2".to_string();
    let out = AppEvents::on_key_up(&mut data);
    assert!(out.spawn.is_none());
    assert!(out.stop);
    assert!(!data.state.udp_run);
}
