//! Decisions behind the user interface.
//!
//! The window layer owns two text fields (address and port) and a rolling
//! three-line status log; it reports two events: the window connecting, and
//! a key release in a field.  Everything those events decide is here: the
//! rolling-log arithmetic, the validation of the fields (the address must be
//! a dotted quad, the port a number above 1023), and the choice between
//! retargeting the relays, stopping them, and doing nothing.  The window
//! layer only renders the fields and the log and performs the spawns, joins
//! and saves the outcome calls for.

use vstd::prelude::*;

use crate::addr::{
    dec_str, dec_value, format_ip, ip_str, is_port_text, parse_ipv4, parse_port_text, port_digits,
    push_dec, SocketAddress,
};
use crate::wc3proxy::{
    mask_of, retarget_is_noop, retarget_logs, retarget_t, stop_logs, stop_t, Proxy, SpawnPlan,
};

verus! {

/// The rolling log after one line is reported: the new line first, then the
/// two most recent old lines; anything older falls off.
pub open spec fn println_log_spec(log: Seq<Seq<char>>, line: Seq<char>) -> Seq<Seq<char>> {
    seq![line] + log.take(
        if log.len() < 2 {
            log.len() as int
        } else {
            2
        },
    )
}

/// Prepends a reported line to the rolling log, keeping at most the two
/// most recent old lines.
pub fn println_log(state: &Vec<String>, line: &str) -> (r: Vec<String>)
    ensures
        r.deep_view() == println_log_spec(state.deep_view(), line@),
{
    let mut new_lines: Vec<String> = Vec::new();
    let mut i: usize = 0;
    while i < state.len() && i < 2
        invariant
            0 <= i <= state.len(),
            i <= 2,
            new_lines.deep_view() =~= state.deep_view().take(i as int),
        decreases state.len() - i,
    {
        let ghost before = new_lines.deep_view();
        let copied = state[i].clone();
        proof {
            assert(copied@ == state@[i as int]@);
        }
        new_lines.push(copied);
        i = i + 1;
        proof {
            assert(new_lines@.len() == before.len() + 1);
            assert forall|k: int| 0 <= k < new_lines@.len() implies new_lines.deep_view()[k]
                == state.deep_view().take(i as int)[k] by {
                if k < before.len() {
                    assert(new_lines.deep_view()[k] == before[k]);
                }
            }
            assert(new_lines.deep_view() =~= state.deep_view().take(i as int));
        }
    }
    new_lines.insert(0, String::from_str(line));
    proof {
        assert(new_lines.deep_view() =~= println_log_spec(state.deep_view(), line@));
    }
    new_lines
}

/// The rolling log after a batch of reported lines, applied first to last.
pub open spec fn apply_lines(log: Seq<Seq<char>>, lines: Seq<Seq<char>>) -> Seq<Seq<char>>
    decreases lines.len(),
{
    if lines.len() == 0 {
        log
    } else {
        apply_lines(println_log_spec(log, lines[0]), lines.skip(1))
    }
}

/// Applying a batch and then one more line is applying the batch extended by
/// that line.
proof fn lemma_apply_lines_snoc(log: Seq<Seq<char>>, lines: Seq<Seq<char>>, x: Seq<char>)
    ensures
        apply_lines(log, lines.push(x)) == apply_lines(println_log_spec(log, lines.push(x)[0]),
            lines.push(x).skip(1)) && apply_lines(log, lines.push(x)) == println_log_spec(
            apply_lines(log, lines),
            x,
        ),
    decreases lines.len(),
{
    if lines.len() == 0 {
        assert(lines.push(x)[0] == x);
        assert(lines.push(x).skip(1) =~= Seq::<Seq<char>>::empty());
    } else {
        assert(lines.push(x)[0] == lines[0]);
        assert(lines.push(x).skip(1) =~= lines.skip(1).push(x));
        lemma_apply_lines_snoc(println_log_spec(log, lines[0]), lines.skip(1), x);
    }
}

/// Reports a batch of lines to the rolling log, first to last.
fn apply_log_lines(log: &Vec<String>, lines: &Vec<String>) -> (r: Vec<String>)
    ensures
        r.deep_view() == apply_lines(log.deep_view(), lines.deep_view()),
{
    let mut cur: Vec<String> = Vec::new();
    let mut i: usize = 0;
    while i < log.len()
        invariant
            0 <= i <= log.len(),
            cur.deep_view() =~= log.deep_view().take(i as int),
        decreases log.len() - i,
    {
        let ghost before = cur.deep_view();
        let copied = log[i].clone();
        proof {
            assert(copied@ == log@[i as int]@);
        }
        cur.push(copied);
        i = i + 1;
        proof {
            assert(cur@.len() == before.len() + 1);
            assert forall|k: int| 0 <= k < cur@.len() implies cur.deep_view()[k]
                == log.deep_view().take(i as int)[k] by {
                if k < before.len() {
                    assert(cur.deep_view()[k] == before[k]);
                }
            }
            assert(cur.deep_view() =~= log.deep_view().take(i as int));
        }
    }
    proof {
        assert(cur.deep_view() =~= log.deep_view());
    }
    let mut j: usize = 0;
    while j < lines.len()
        invariant
            0 <= j <= lines.len(),
            cur.deep_view() == apply_lines(log.deep_view(), lines.deep_view().take(j as int)),
        decreases lines.len() - j,
    {
        let ghost prefix = lines.deep_view().take(j as int);
        cur = println_log(&cur, lines[j].as_str());
        proof {
            assert(lines.deep_view().take(j + 1 as int) =~= prefix.push(
                lines.deep_view()[j as int],
            ));
            lemma_apply_lines_snoc(log.deep_view(), prefix, lines.deep_view()[j as int]);
        }
        j = j + 1;
    }
    proof {
        assert(lines.deep_view().take(lines.len() as int) =~= lines.deep_view());
    }
    cur
}

/// What the window shows and owns: the two text fields, the most recently
/// submitted valid target, the rolling log, and the controller.
pub struct AppState {
    pub ip: String,
    pub port: String,
    pub old_addr: Option<SocketAddress>,
    pub log: Vec<String>,
    pub state: Proxy,
}

impl AppState {
    /// Packs the window state.
    pub fn new(
        ip: String,
        port: String,
        old_addr: Option<SocketAddress>,
        log: Vec<String>,
        state: Proxy,
    ) -> (r: AppState)
        ensures
            r.ip == ip,
            r.port == port,
            r.old_addr == old_addr,
            r.log == log,
            r.state == state,
    {
        AppState { ip, port, old_addr, log, state }
    }
}

/// Whether the two fields hold this target: the address field is its dotted
/// quad, the port field a number equal to its port, and the port is above
/// the reserved range.
pub open spec fn edit_target(ip_text: Seq<char>, port_text: Seq<char>, t: SocketAddress) -> bool {
    &&& ip_text == ip_str(t.ip)
    &&& is_port_text(port_text)
    &&& dec_value(port_digits(port_text)) == t.port as nat
    &&& t.port > 1023
}

/// What a key-release event owes the process: a spawn, if the relays were
/// retargeted, and whether retired loops must be joined after a stop.
pub struct EditOutcome {
    pub spawn: Option<SpawnPlan>,
    pub stop: bool,
}

/// The window's event delegate: turns interface events into controller
/// calls.
pub struct AppEvents;

impl AppEvents {
    /// The window has connected: if a target was remembered (persisted from
    /// an earlier run), pre-fill both fields with its text and apply it at
    /// once, reporting the new endpoints to the log.
    pub fn on_window_connected(data: &mut AppState) -> (r: Option<SpawnPlan>)
        requires
            old(data).state.wf(),
            old(data).state.udp_gen < u64::MAX,
            old(data).state.tcp_gen < u64::MAX,
        ensures
            final(data).state.wf(),
            match old(data).state.current_addr {
                Some(t) => {
                    &&& final(data).state == retarget_t(old(data).state, t)
                    &&& final(data).ip@ == ip_str(t.ip)
                    &&& final(data).port@ == dec_str(t.port as nat)
                    &&& final(data).old_addr == old(data).old_addr
                    &&& final(data).log.deep_view() == apply_lines(
                        old(data).log.deep_view(),
                        retarget_logs(old(data).state, t),
                    )
                    &&& match r {
                        Some(plan) => !retarget_is_noop(old(data).state, t) && plan == (SpawnPlan {
                            target: t,
                            local_mask: mask_of(old(data).state, t),
                            udp_gen: final(data).state.udp_gen,
                            tcp_gen: final(data).state.tcp_gen,
                        }),
                        None => retarget_is_noop(old(data).state, t),
                    }
                },
                None => *final(data) == *old(data) && r is None,
            },
    {
        match data.state.get_current_addr() {
            None => None,
            Some(t) => {
                data.ip = format_ip(&t.ip);
                let mut port_text = String::new();
                push_dec(&mut port_text, t.port);
                proof {
                    assert(port_text@ =~= dec_str(t.port as nat));
                }
                data.port = port_text;
                let outcome = data.state.on_address_change(t);
                data.log = apply_log_lines(&data.log, &outcome.logs);
                outcome.spawn
            },
        }
    }

    /// A key was released in a field: read both fields.  If they hold a
    /// valid target, apply it (a no-op if it is already active); otherwise
    /// treat the input as "no valid target" and stop any running relays.
    /// Either way, report the controller's lines to the rolling log.
    pub fn on_key_up(data: &mut AppState) -> (r: EditOutcome)
        requires
            old(data).state.wf(),
            old(data).state.udp_gen < u64::MAX,
            old(data).state.tcp_gen < u64::MAX,
        ensures
            final(data).state.wf(),
            final(data).ip == old(data).ip,
            final(data).port == old(data).port,
            forall|t: SocketAddress| edit_target(old(data).ip@, old(data).port@, t) ==> {
                &&& final(data).state == retarget_t(old(data).state, t)
                &&& final(data).old_addr == Some(t)
                &&& final(data).log.deep_view() == apply_lines(
                    old(data).log.deep_view(),
                    retarget_logs(old(data).state, t),
                )
                &&& r.stop == false
                &&& match r.spawn {
                    Some(plan) => !retarget_is_noop(old(data).state, t) && plan == (SpawnPlan {
                        target: t,
                        local_mask: mask_of(old(data).state, t),
                        udp_gen: retarget_t(old(data).state, t).udp_gen,
                        tcp_gen: retarget_t(old(data).state, t).tcp_gen,
                    }),
                    None => retarget_is_noop(old(data).state, t),
                }
            },
            (forall|t: SocketAddress| !edit_target(old(data).ip@, old(data).port@, t)) ==> {
                &&& final(data).state == stop_t(old(data).state)
                &&& final(data).old_addr == old(data).old_addr
                &&& final(data).log.deep_view() == apply_lines(
                    old(data).log.deep_view(),
                    stop_logs(old(data).state),
                )
                &&& r.spawn is None
                &&& r.stop == old(data).state.is_active()
            },
    {
        let parsed_port = parse_port_text(data.port.as_str());
        let parsed_ip = parse_ipv4(data.ip.as_str());
        let mut target: Option<SocketAddress> = None;
        match parsed_ip {
            Some(ipv) => match parsed_port {
                Some(pv) => {
                    if pv > 1023 {
                        target = Some(SocketAddress { ip: ipv, port: pv });
                    }
                },
                None => {},
            },
            None => {},
        }
        match target {
            Some(t) => {
                proof {
                    assert(edit_target(old(data).ip@, old(data).port@, t));
                    assert forall|t2: SocketAddress|
                        edit_target(old(data).ip@, old(data).port@, t2) implies t2 == t by {
                        crate::addr::lemma_ip_str_injective(t2.ip, t.ip);
                    }
                }
                data.old_addr = Some(t);
                let outcome = data.state.on_address_change(t);
                data.log = apply_log_lines(&data.log, &outcome.logs);
                EditOutcome { spawn: outcome.spawn, stop: false }
            },
            None => {
                proof {
                    assert forall|t2: SocketAddress|
                        !edit_target(old(data).ip@, old(data).port@, t2) by {
                        if edit_target(old(data).ip@, old(data).port@, t2) {
                            assert(parsed_ip is Some);
                            assert(parsed_port is Some);
                        }
                    }
                }
                let stopped = data.state.stop_proxy();
                data.log = apply_log_lines(&data.log, &stopped.logs);
                EditOutcome { spawn: None, stop: stopped.was_active }
            },
        }
    }
}

} // verus!
