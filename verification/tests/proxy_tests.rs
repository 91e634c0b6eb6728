use wc3proxy::addr::{IpAddress, SocketAddress};
use wc3proxy::wc3proxy::{discovery_probe, discovery_step, relay_continue, tcp_listen_addr, Proxy};

fn ip(a: u8, b: u8, c: u8, d: u8) -> IpAddress {
    IpAddress { a, b, c, d }
}

fn target(a: u8, b: u8, c: u8, d: u8, port: u16) -> SocketAddress {
    SocketAddress { ip: ip(a, b, c, d), port }
}

#[test]
fn new_controller_is_idle() {
    let p = Proxy::new(ip(10, 0, 0, 2), None);
    assert!(!p.udp_run && !p.tcp_run);
    assert_eq!(p.get_current_addr(), None);

    let saved = target(192, 168, 1, 50, 6112);
    let q = Proxy::new(ip(10, 0, 0, 2), Some(saved));
    assert!(!q.udp_run && !q.tcp_run);
    assert_eq!(q.get_current_addr(), Some(saved));
}

#[test]
fn retarget_activates_and_reports_endpoints() {
    let mut p = Proxy::new(ip(10, 0, 0, 2), None);
    let t = target(192, 168, 1, 50, 6112);
    let out = p.on_address_change(t);
    assert_eq!(out.logs, vec!["listen[udp][10.0.0.2:6112]", "listen[tcp][10.0.0.2:6112]"]);
    let plan = out.spawn.expect("a fresh retarget owes a spawn");
    assert_eq!(plan.target, t);
    assert_eq!(plan.local_mask, target(10, 0, 0, 2, 6112));
    assert_eq!(plan.udp_gen, 1);
    assert_eq!(plan.tcp_gen, 1);
    assert!(p.udp_run && p.tcp_run);
    assert_eq!(p.get_current_addr(), Some(t));
}

#[test]
fn resubmitting_the_same_target_is_a_no_op() {
    let mut p = Proxy::new(ip(10, 0, 0, 2), None);
    let t = target(192, 168, 1, 50, 6112);
    let _ = p.on_address_change(t);
    let again = p.on_address_change(t);
    assert!(again.logs.is_empty());
    assert!(again.spawn.is_none());
    assert_eq!(p.udp_gen, 1);
    assert_eq!(p.tcp_gen, 1);
}

#[test]
fn retargeting_supersedes_the_previous_generation() {
    let mut p = Proxy::new(ip(10, 0, 0, 2), None);
    let t1 = target(192, 168, 1, 50, 6112);
    let t2 = target(192, 168, 1, 60, 6112);
    let first = p.on_address_change(t1).spawn.unwrap();
    let second = p.on_address_change(t2).spawn.unwrap();
    assert_eq!(first.udp_gen, 1);
    assert_eq!(second.udp_gen, 2);
    assert_eq!(second.tcp_gen, 2);
    // only the generation born for the last target is still live
    assert!(p.udp_run && p.udp_gen == second.udp_gen);
    assert!(p.udp_gen != first.udp_gen);
    assert_eq!(p.get_current_addr(), Some(t2));
}

#[test]
fn stop_is_idempotent() {
    let mut p = Proxy::new(ip(10, 0, 0, 2), None);
    let t = target(192, 168, 1, 50, 6112);
    let _ = p.on_address_change(t);

    let first = p.stop_proxy();
    assert!(first.was_active);
    assert_eq!(first.logs, vec!["stop[udp]", "stop[tcp]"]);
    assert!(!p.udp_run && !p.tcp_run);

    let second = p.stop_proxy();
    assert!(!second.was_active);
    assert!(second.logs.is_empty());
    assert!(!p.udp_run && !p.tcp_run);
}

#[test]
fn stop_keeps_the_remembered_target() {
    let mut p = Proxy::new(ip(10, 0, 0, 2), None);
    let t = target(192, 168, 1, 50, 6112);
    let _ = p.on_address_change(t);
    let _ = p.stop_proxy();
    assert_eq!(p.get_current_addr(), Some(t));
}

#[test]
fn probe_is_the_fixed_sixteen_bytes() {
    let expected: Vec<u8> = vec![
        0xf7, 0x2f, 0x10, 0x00, 0x50, 0x58, 0x33, 0x57, 0x18, 0x00, 0x00, 0x00, 0x00, 0x00, 0x00,
        0x00,
    ];
    assert_eq!(discovery_probe(), expected);
}

#[test]
fn discovery_step_sends_a_probe_after_two_seconds() {
    let t = target(192, 168, 1, 50, 6112);
    let step = discovery_step(2, None, t, ip(10, 0, 0, 2));
    assert_eq!(step.probe, Some(discovery_probe()));
    assert!(step.forward.is_none());

    let quiet = discovery_step(1, None, t, ip(10, 0, 0, 2));
    assert!(quiet.probe.is_none());
    assert!(quiet.forward.is_none());
}

#[test]
fn discovery_step_forwards_replies_verbatim_to_the_mask() {
    let t = target(192, 168, 1, 50, 6112);
    let payload: Vec<u8> = vec![1, 2, 3, 255, 0, 42];
    let step = discovery_step(0, Some(payload.clone()), t, ip(10, 0, 0, 2));
    let (forwarded, dest) = step.forward.expect("a pending reply must be forwarded");
    assert_eq!(forwarded, payload);
    assert_eq!(dest, target(10, 0, 0, 2, 6112));
}

#[test]
fn relay_continue_checks_flag_and_generation() {
    assert!(relay_continue(true, 4, 4));
    assert!(!relay_continue(false, 4, 4));
    assert!(!relay_continue(true, 5, 4));
}

#[test]
fn connection_relay_listens_on_the_mask() {
    let t = target(192, 168, 1, 50, 6112);
    assert_eq!(tcp_listen_addr(ip(10, 0, 0, 2), t), target(10, 0, 0, 2, 6112));
}
