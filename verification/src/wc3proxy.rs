//! The relay engine.
//!
//! `Proxy` is the controller state machine: it owns the current target, one
//! generation counter and one run flag per relay kind, and decides what a
//! retarget or a stop does.  The surrounding process owns the sockets and the
//! scheduled loops; it calls `on_address_change` and `stop_proxy`, performs
//! the spawns and joins they call for, and drives each running loop one
//! iteration at a time through the step functions at the end of this module.
//!
//! The intended picture: at most one discovery loop and one connection loop
//! are live at any instant; a loop is live while the shared run flag is set
//! and its birth generation is still the current one; a retarget retires the
//! old generation (the process joins it before spawning) and starts a new
//! one; a stop retires both kinds and starts nothing.

use vstd::prelude::*;

use crate::addr::{addr_str, format_addr, IpAddress, SocketAddress};

verus! {

/// The controller: lifecycle and generation bookkeeping for the discovery
/// relay and the connection relay.
pub struct Proxy {
    /// The resolved outbound address of this machine, fixed for the process
    /// lifetime; remote traffic is replayed as though it came from here.
    pub default_ip: IpAddress,
    /// Generation of the most recently started discovery loop.
    pub udp_gen: u64,
    /// Generation of the most recently started connection loop.
    pub tcp_gen: u64,
    /// Run flag shared with the discovery loop.
    pub udp_run: bool,
    /// Run flag shared with the connection loop.
    pub tcp_run: bool,
    /// The most recently applied target, kept across stops so the interface
    /// can pre-fill its fields.
    pub current_addr: Option<SocketAddress>,
    /// The target the most recently started discovery loop was born with.
    pub udp_bound: Option<SocketAddress>,
    /// The target the most recently started connection loop was born with.
    pub tcp_bound: Option<SocketAddress>,
}

/// What the process must do after a retarget: join the retired loops, then
/// start one discovery loop and one connection loop with these parameters.
#[derive(Clone, Copy, PartialEq, Eq, Structural, Debug)]
pub struct SpawnPlan {
    /// The remote server to relay to.
    pub target: SocketAddress,
    /// The local endpoint to masquerade as: the resolved outbound address
    /// with the target's port.  The discovery loop forwards replies here;
    /// the connection loop listens here.
    pub local_mask: SocketAddress,
    /// Birth generation of the new discovery loop.
    pub udp_gen: u64,
    /// Birth generation of the new connection loop.
    pub tcp_gen: u64,
}

/// The outcome of a retarget: the status lines to log, and the spawn the
/// process owes, if the call was not a no-op.
pub struct RetargetOutcome {
    pub logs: Vec<String>,
    pub spawn: Option<SpawnPlan>,
}

/// The outcome of a stop: the status lines to log, and whether loops were
/// running, in which case the process owes a join on both.
pub struct StopOutcome {
    pub logs: Vec<String>,
    pub was_active: bool,
}

impl Proxy {
    /// Both run flags always move together, and while they are set the live
    /// loops were born with the current target.
    pub open spec fn wf(self) -> bool {
        &&& self.tcp_run == self.udp_run
        &&& (self.udp_run ==> self.current_addr is Some && self.udp_bound == self.current_addr
            && self.tcp_bound == self.current_addr)
    }

    /// Whether the controller is in its active state (relay loops running)
    /// rather than idle.
    pub open spec fn is_active(self) -> bool {
        self.udp_run || self.tcp_run
    }

    /// Whether a discovery loop born with this generation is live.
    pub open spec fn udp_live(self, generation: u64) -> bool {
        self.udp_run && generation == self.udp_gen
    }

    /// Whether a connection loop born with this generation is live.
    pub open spec fn tcp_live(self, generation: u64) -> bool {
        self.tcp_run && generation == self.tcp_gen
    }
}

/// The local endpoint to masquerade as for a given target.
pub open spec fn mask_of(p: Proxy, t: SocketAddress) -> SocketAddress {
    SocketAddress { ip: p.default_ip, port: t.port }
}

/// A retarget to the target that is already active is a no-op.
pub open spec fn retarget_is_noop(p: Proxy, t: SocketAddress) -> bool {
    p.is_active() && p.current_addr == Some(t)
}

/// The state after a retarget: unchanged on a no-op, otherwise both
/// generations bumped, both run flags set, and the target applied.
pub open spec fn retarget_t(p: Proxy, t: SocketAddress) -> Proxy {
    if retarget_is_noop(p, t) {
        p
    } else {
        Proxy {
            default_ip: p.default_ip,
            udp_gen: (p.udp_gen + 1) as u64,
            tcp_gen: (p.tcp_gen + 1) as u64,
            udp_run: true,
            tcp_run: true,
            current_addr: Some(t),
            udp_bound: Some(t),
            tcp_bound: Some(t),
        }
    }
}

/// The state after a stop: idle, with the remembered target kept.
pub open spec fn stop_t(p: Proxy) -> Proxy {
    if p.is_active() {
        Proxy { udp_run: false, tcp_run: false, ..p }
    } else {
        p
    }
}

/// The status line announcing the discovery relay's local endpoint.
pub open spec fn listen_udp_line(mask: SocketAddress) -> Seq<char> {
    "listen[udp]["@ + addr_str(mask) + "]"@
}

/// The status line announcing the connection relay's local endpoint.
pub open spec fn listen_tcp_line(mask: SocketAddress) -> Seq<char> {
    "listen[tcp]["@ + addr_str(mask) + "]"@
}

/// The status lines a retarget emits, in emission order: none on a no-op.
pub open spec fn retarget_logs(p: Proxy, t: SocketAddress) -> Seq<Seq<char>> {
    if retarget_is_noop(p, t) {
        Seq::empty()
    } else {
        seq![listen_udp_line(mask_of(p, t)), listen_tcp_line(mask_of(p, t))]
    }
}

/// The status lines a stop emits, in emission order: none when already idle.
pub open spec fn stop_logs(p: Proxy) -> Seq<Seq<char>> {
    if p.is_active() {
        seq!["stop[udp]"@, "stop[tcp]"@]
    } else {
        Seq::empty()
    }
}

impl Proxy {
    /// A fresh controller: idle, generation counters at zero, remembering
    /// the persisted target, if one was handed in.
    pub fn new(default_ip: IpAddress, saved: Option<SocketAddress>) -> (r: Proxy)
        ensures
            r.wf(),
            !r.is_active(),
            r.default_ip == default_ip,
            r.current_addr == saved,
            r.udp_gen == 0,
            r.tcp_gen == 0,
            r.udp_bound is None,
            r.tcp_bound is None,
    {
        Proxy {
            default_ip,
            udp_gen: 0,
            tcp_gen: 0,
            udp_run: false,
            tcp_run: false,
            current_addr: saved,
            udp_bound: None,
            tcp_bound: None,
        }
    }

    /// The most recently applied target, if any.
    pub fn get_current_addr(&self) -> (r: Option<SocketAddress>)
        ensures
            r == self.current_addr,
    {
        self.current_addr
    }

    /// Stops both relay loops: clears the run flags and reports the stop,
    /// unless already idle, in which case nothing happens.  The process must
    /// join both retired loops when `was_active` is set, before it returns
    /// control to the caller of the stop.
    pub fn stop_proxy(&mut self) -> (r: StopOutcome)
        requires
            old(self).wf(),
        ensures
            final(self).wf(),
            *final(self) == stop_t(*old(self)),
            !final(self).is_active(),
            r.was_active == old(self).is_active(),
            r.logs.deep_view() == stop_logs(*old(self)),
    {
        if self.udp_run || self.tcp_run {
            let mut logs: Vec<String> = Vec::new();
            logs.push(String::from_str("stop[udp]"));
            logs.push(String::from_str("stop[tcp]"));
            self.udp_run = false;
            self.tcp_run = false;
            proof {
                assert(logs.deep_view() =~= stop_logs(*old(self)));
            }
            StopOutcome { logs, was_active: true }
        } else {
            let logs: Vec<String> = Vec::new();
            proof {
                assert(logs.deep_view() =~= stop_logs(*old(self)));
            }
            StopOutcome { logs, was_active: false }
        }
    }

    /// Applies a new target: a no-op if that target is already active,
    /// otherwise it retires the running generation, bumps both counters,
    /// marks the new generation live, remembers the target, and reports the
    /// two new local endpoints.  The process must first join the retired
    /// loops, then spawn the new ones as the plan says, and persist the
    /// target.
    pub fn on_address_change(&mut self, addr: SocketAddress) -> (r: RetargetOutcome)
        requires
            old(self).wf(),
            old(self).udp_gen < u64::MAX,
            old(self).tcp_gen < u64::MAX,
        ensures
            final(self).wf(),
            *final(self) == retarget_t(*old(self), addr),
            final(self).is_active(),
            final(self).current_addr == Some(addr),
            r.logs.deep_view() == retarget_logs(*old(self), addr),
            match r.spawn {
                Some(plan) => !retarget_is_noop(*old(self), addr) && plan == (SpawnPlan {
                    target: addr,
                    local_mask: mask_of(*old(self), addr),
                    udp_gen: final(self).udp_gen,
                    tcp_gen: final(self).tcp_gen,
                }),
                None => retarget_is_noop(*old(self), addr),
            },
    {
        let noop = (self.udp_run || self.tcp_run) && match self.current_addr {
            Some(cur) => cur == addr,
            None => false,
        };
        if noop {
            RetargetOutcome { logs: Vec::new(), spawn: None }
        } else {
            let mask = SocketAddress { ip: self.default_ip, port: addr.port };
            let mask_text = format_addr(&mask);
            let mut udp_line = String::from_str("listen[udp][");
            udp_line.append(mask_text.as_str());
            udp_line.append("]");
            let mut tcp_line = String::from_str("listen[tcp][");
            tcp_line.append(mask_text.as_str());
            tcp_line.append("]");
            let mut logs: Vec<String> = Vec::new();
            logs.push(udp_line);
            logs.push(tcp_line);
            self.udp_gen = self.udp_gen + 1;
            self.tcp_gen = self.tcp_gen + 1;
            self.udp_run = true;
            self.tcp_run = true;
            self.current_addr = Some(addr);
            self.udp_bound = Some(addr);
            self.tcp_bound = Some(addr);
            let plan = SpawnPlan {
                target: addr,
                local_mask: mask,
                udp_gen: self.udp_gen,
                tcp_gen: self.tcp_gen,
            };
            proof {
                assert(logs.deep_view() =~= retarget_logs(*old(self), addr));
            }
            RetargetOutcome { logs, spawn: Some(plan) }
        }
    }
}

/// A valid retarget activates exactly one discovery loop and one connection
/// loop, both born with the submitted target; submitting the same target
/// again is a no-op that emits no log lines and changes nothing.
pub proof fn lemma_retarget_activates(p: Proxy, t: SocketAddress)
    requires
        p.wf(),
        t.port > 1023,
        p.udp_gen < u64::MAX,
        p.tcp_gen < u64::MAX,
    ensures
        retarget_t(p, t).wf(),
        retarget_t(p, t).is_active(),
        retarget_t(p, t).current_addr == Some(t),
        retarget_t(p, t).udp_bound == Some(t),
        retarget_t(p, t).tcp_bound == Some(t),
        forall|g: u64| retarget_t(p, t).udp_live(g) <==> g == retarget_t(p, t).udp_gen,
        forall|g: u64| retarget_t(p, t).tcp_live(g) <==> g == retarget_t(p, t).tcp_gen,
        retarget_t(retarget_t(p, t), t) == retarget_t(p, t),
        retarget_logs(retarget_t(p, t), t) == Seq::<Seq<char>>::empty(),
{
}

/// Stopping is idempotent: the first stop reaches the idle state, and a
/// second stop leaves it there, emitting no log lines.
pub proof fn lemma_stop_idempotent(p: Proxy)
    requires
        p.wf(),
    ensures
        !stop_t(p).is_active(),
        stop_t(p).wf(),
        stop_t(stop_t(p)) == stop_t(p),
        stop_logs(stop_t(p)) == Seq::<Seq<char>>::empty(),
{
}

/// The state after a sequence of retargets, applied first to last.
pub open spec fn retarget_seq(p: Proxy, ts: Seq<SocketAddress>) -> Proxy
    decreases ts.len(),
{
    if ts.len() == 0 {
        p
    } else {
        retarget_seq(retarget_t(p, ts[0]), ts.skip(1))
    }
}

/// After any sequence of retargets, exactly the generation started for the
/// last target is live, for each relay kind: every other generation's loop
/// observes a cleared flag or a counter mismatch and exits.  The generation
/// counters never move past the number of retargets performed.
pub proof fn lemma_retarget_sequence(p: Proxy, ts: Seq<SocketAddress>)
    requires
        p.wf(),
        ts.len() >= 1,
        p.udp_gen + ts.len() <= u64::MAX,
        p.tcp_gen + ts.len() <= u64::MAX,
    ensures
        retarget_seq(p, ts).wf(),
        retarget_seq(p, ts).is_active(),
        retarget_seq(p, ts).current_addr == Some(ts.last()),
        retarget_seq(p, ts).udp_bound == Some(ts.last()),
        retarget_seq(p, ts).tcp_bound == Some(ts.last()),
        forall|g: u64| retarget_seq(p, ts).udp_live(g) <==> g == retarget_seq(p, ts).udp_gen,
        forall|g: u64| retarget_seq(p, ts).tcp_live(g) <==> g == retarget_seq(p, ts).tcp_gen,
        p.udp_gen <= retarget_seq(p, ts).udp_gen <= p.udp_gen + ts.len(),
        p.tcp_gen <= retarget_seq(p, ts).tcp_gen <= p.tcp_gen + ts.len(),
    decreases ts.len(),
{
    let q = retarget_t(p, ts[0]);
    if ts.len() == 1 {
        assert(ts.skip(1).len() == 0);
        assert(ts[0] == ts.last());
    } else {
        assert(ts.skip(1).len() >= 1);
        assert(ts.skip(1).last() == ts.last());
        lemma_retarget_sequence(q, ts.skip(1));
    }
}

/// The fixed discovery probe datagram: sixteen bytes, replayed toward the
/// target verbatim and periodically.
pub open spec fn probe_bytes() -> Seq<u8> {
    seq![
        0xf7u8,
        0x2fu8,
        0x10u8,
        0x00u8,
        0x50u8,
        0x58u8,
        0x33u8,
        0x57u8,
        0x18u8,
        0x00u8,
        0x00u8,
        0x00u8,
        0x00u8,
        0x00u8,
        0x00u8,
        0x00u8,
    ]
}

/// The discovery probe datagram, as bytes to put on the wire.
pub fn discovery_probe() -> (r: Vec<u8>)
    ensures
        r@ == probe_bytes(),
{
    let r: Vec<u8> = vec![
        0xf7u8,
        0x2fu8,
        0x10u8,
        0x00u8,
        0x50u8,
        0x58u8,
        0x33u8,
        0x57u8,
        0x18u8,
        0x00u8,
        0x00u8,
        0x00u8,
        0x00u8,
        0x00u8,
        0x00u8,
        0x00u8,
    ];
    proof {
        assert(r@ =~= probe_bytes());
    }
    r
}

/// Whether a relay loop born with the given generation runs one more
/// iteration: only while the shared flag is set and its generation is still
/// the current one.
pub fn relay_continue(run: bool, current_gen: u64, born_gen: u64) -> (r: bool)
    ensures
        r == (run && current_gen == born_gen),
{
    run && current_gen == born_gen
}

/// What one iteration of the discovery loop does with what it found.
pub struct DiscoveryStep {
    /// The probe to send to the target, due again once at least two
    /// seconds have passed since the last one.
    pub probe: Option<Vec<u8>>,
    /// A reply received from the target, to forward to the local mask
    /// endpoint byte for byte, together with that endpoint.
    pub forward: Option<(Vec<u8>, SocketAddress)>,
}

/// Decides one iteration of the discovery loop.  The loop hands in the
/// seconds elapsed since the last probe and the datagram received from the
/// target, if one was pending; it owes the sends the result calls for, and
/// nothing else.  When neither field asks for a send, the loop yields and
/// goes round again.
pub fn discovery_step(
    elapsed_secs: u64,
    received: Option<Vec<u8>>,
    target: SocketAddress,
    default_ip: IpAddress,
) -> (r: DiscoveryStep)
    ensures
        r.probe is Some <==> elapsed_secs >= 2,
        r.probe is Some ==> r.probe->0@ == probe_bytes(),
        match r.forward {
            Some(f) => received == Some(f.0) && f.0@ == received->0@ && f.1 == (SocketAddress {
                ip: default_ip,
                port: target.port,
            }),
            None => received is None,
        },
{
    let probe = if elapsed_secs >= 2 {
        Some(discovery_probe())
    } else {
        None
    };
    let forward = match received {
        Some(payload) => Some(
            (payload, SocketAddress { ip: default_ip, port: target.port }),
        ),
        None => None,
    };
    DiscoveryStep { probe, forward }
}

/// Where the connection relay listens: the resolved outbound address, on the
/// target's port.
pub fn tcp_listen_addr(default_ip: IpAddress, target: SocketAddress) -> (r: SocketAddress)
    ensures
        r == (SocketAddress { ip: default_ip, port: target.port }),
{
    SocketAddress { ip: default_ip, port: target.port }
}

} // verus!
