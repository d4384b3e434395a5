//! The relay's forwarding state machine. A relay starts with no forwarding
//! target, learns it from a configuration message, and from then on passes
//! every file-broadcast message to that target, pacing each hop with a
//! fixed delay. The machine here decides; the surrounding process dials,
//! sleeps and writes.

use crate::codec::{classify_line, spec_classify_line, LineOutcome, LineOutcomeV};
use crate::packet::{Packet, PacketType, PacketV};
use vstd::prelude::*;

verus! {

/// How long a relay pauses between receiving a file message and passing it
/// on: deliberate pacing, not an accident.
pub const PROPAGATION_DELAY_SECS: u64 = 2;

/// The one mutable datum of a relay connection: the address it forwards
/// file messages to. Empty until a configuration message sets it.
pub struct RelayForwardingState {
    pub next_ip: String,
}

impl RelayForwardingState {
    /// A forwarding target has been set.
    pub open spec fn configured(&self) -> bool {
        self.next_ip@.len() > 0
    }

    pub fn new() -> (r: Self)
        ensures
            r.next_ip@ == Seq::<char>::empty(),
            !r.configured(),
    {
        RelayForwardingState { next_ip: String::new() }
    }
}

/// What a relay does with one packet. Only `Forward` names an address to
/// dial; the connection's read loop ends on `RefuseUnconfigured`, and on a
/// `Forward` whose dial fails.
pub enum RelayAction {
    /// A handshake: noted, nothing else.
    AcknowledgeHandshake,
    /// A packet with no payload at all: dropped, reading continues.
    DropMissingPayload,
    /// A configuration message without a forwarding address: dropped.
    DropMissingAddress,
    /// The forwarding target was stored; `overwrote` says a previous target
    /// was already set — that is reported as an error, yet the new address
    /// replaces the old one all the same.
    SetNextHop { overwrote: bool },
    /// Dial `target`, wait `delay_secs`, then pass the identical packet
    /// on.
    Forward { target: String, delay_secs: u64, packet: Packet },
    /// A file message arrived before any configuration: reported as an
    /// error, and the connection's read loop ends — nothing is dialed.
    RefuseUnconfigured,
    /// Files are injected at the coordinator only: reported, ignored.
    RefuseInject,
}

#[verifier::ext_equal]
pub ghost enum RelayActionV {
    AcknowledgeHandshake,
    DropMissingPayload,
    DropMissingAddress,
    SetNextHop { overwrote: bool },
    Forward { target: Seq<char>, delay_secs: u64, packet: PacketV },
    RefuseUnconfigured,
    RefuseInject,
}

impl View for RelayAction {
    type V = RelayActionV;

    open spec fn view(&self) -> RelayActionV {
        match self {
            RelayAction::AcknowledgeHandshake => RelayActionV::AcknowledgeHandshake,
            RelayAction::DropMissingPayload => RelayActionV::DropMissingPayload,
            RelayAction::DropMissingAddress => RelayActionV::DropMissingAddress,
            RelayAction::SetNextHop { overwrote } => RelayActionV::SetNextHop {
                overwrote: *overwrote,
            },
            RelayAction::Forward { target, delay_secs, packet } => RelayActionV::Forward {
                target: target@,
                delay_secs: *delay_secs,
                packet: packet@,
            },
            RelayAction::RefuseUnconfigured => RelayActionV::RefuseUnconfigured,
            RelayAction::RefuseInject => RelayActionV::RefuseInject,
        }
    }
}

/// The transition of the forwarding state machine: from the stored target
/// and one packet to the new target and the action taken.
pub open spec fn spec_relay_step(next_ip: Seq<char>, p: PacketV) -> (Seq<char>, RelayActionV) {
    match p.data {
        None => (next_ip, RelayActionV::DropMissingPayload),
        Some(d) => match p.packet_type {
            PacketType::Handshake => (next_ip, RelayActionV::AcknowledgeHandshake),
            PacketType::RootConfiguration => match d.next_relay_address {
                None => (next_ip, RelayActionV::DropMissingAddress),
                Some(addr) => (addr, RelayActionV::SetNextHop { overwrote: next_ip.len() > 0 }),
            },
            PacketType::RelayFile => if next_ip.len() > 0 {
                (
                    next_ip,
                    RelayActionV::Forward {
                        target: next_ip,
                        delay_secs: PROPAGATION_DELAY_SECS,
                        packet: p,
                    },
                )
            } else {
                (next_ip, RelayActionV::RefuseUnconfigured)
            },
            PacketType::InjectFile => (next_ip, RelayActionV::RefuseInject),
        },
    }
}

/// Handle one packet: store a configuration's target, forward a file to
/// the stored target, refuse what cannot be handled.
pub fn relay_step(state: &mut RelayForwardingState, packet: &Packet) -> (a: RelayAction)
    ensures
        (final(state).next_ip@, a@) == spec_relay_step(old(state).next_ip@, packet@),
{
    let data = match &packet.data {
        None => {
            return RelayAction::DropMissingPayload;
        },
        Some(d) => d,
    };
    match packet.packet_type {
        PacketType::Handshake => RelayAction::AcknowledgeHandshake,
        PacketType::RootConfiguration => {
            match &data.next_relay_address {
                None => RelayAction::DropMissingAddress,
                Some(addr) => {
                    let overwrote = state.next_ip.unicode_len() > 0;
                    state.next_ip = addr.clone();
                    RelayAction::SetNextHop { overwrote }
                },
            }
        },
        PacketType::RelayFile => {
            if state.next_ip.unicode_len() > 0 {
                RelayAction::Forward {
                    target: state.next_ip.clone(),
                    delay_secs: PROPAGATION_DELAY_SECS,
                    packet: packet.clone(),
                }
            } else {
                RelayAction::RefuseUnconfigured
            }
        },
        PacketType::InjectFile => RelayAction::RefuseInject,
    }
}

/// The outcome of reading one line on a relay connection.
pub enum RelayLineResult {
    /// The peer closed (blank line): stop reading.
    Disconnected,
    /// The line spelled no packet: dropped, reading continues.
    DroppedMalformed,
    /// A packet was handled; this is what the handling decided.
    Acted(RelayAction),
}

#[verifier::ext_equal]
pub ghost enum RelayLineResultV {
    Disconnected,
    DroppedMalformed,
    Acted(RelayActionV),
}

impl View for RelayLineResult {
    type V = RelayLineResultV;

    open spec fn view(&self) -> RelayLineResultV {
        match self {
            RelayLineResult::Disconnected => RelayLineResultV::Disconnected,
            RelayLineResult::DroppedMalformed => RelayLineResultV::DroppedMalformed,
            RelayLineResult::Acted(a) => RelayLineResultV::Acted(a@),
        }
    }
}

/// The line-level transition: what one raw line does to the relay's state.
pub open spec fn spec_relay_line_step(next_ip: Seq<char>, line: Seq<char>) -> (
    Seq<char>,
    RelayLineResultV,
) {
    match spec_classify_line(line) {
        LineOutcomeV::Disconnect => (next_ip, RelayLineResultV::Disconnected),
        LineOutcomeV::Malformed => (next_ip, RelayLineResultV::DroppedMalformed),
        LineOutcomeV::Parsed(p) => {
            let (s2, a) = spec_relay_step(next_ip, p);
            (s2, RelayLineResultV::Acted(a))
        },
    }
}

/// Read one raw line on a relay connection: interpret it, then run the
/// state machine on whatever packet it spelled.
pub fn relay_handle_line(state: &mut RelayForwardingState, line: &str) -> (r: RelayLineResult)
    ensures
        (final(state).next_ip@, r@) == spec_relay_line_step(old(state).next_ip@, line@),
{
    match classify_line(line) {
        LineOutcome::Disconnect => RelayLineResult::Disconnected,
        LineOutcome::Malformed => RelayLineResult::DroppedMalformed,
        LineOutcome::Parsed(p) => {
            let a = relay_step(state, &p);
            RelayLineResult::Acted(a)
        },
    }
}

/// A relay that has no forwarding target and receives a file to relay
/// refuses it: the outcome names no address, so nothing is dialed, and the
/// refusal is the single error the connection reports before its read loop
/// ends.
pub proof fn lemma_unconfigured_relay_never_dials(next_ip: Seq<char>, p: PacketV)
    requires
        next_ip.len() == 0,
        p.packet_type == PacketType::RelayFile,
        p.data is Some,
    ensures
        spec_relay_step(next_ip, p) == (next_ip, RelayActionV::RefuseUnconfigured),
{
}

/// A configured relay passes a file message to exactly its stored target,
/// and the action carries the fixed propagation delay the caller is to
/// wait before the downstream write.
pub proof fn lemma_configured_relay_forwards_paced(next_ip: Seq<char>, p: PacketV)
    requires
        next_ip.len() > 0,
        p.packet_type == PacketType::RelayFile,
        p.data is Some,
    ensures
        spec_relay_step(next_ip, p) == (
            next_ip,
            RelayActionV::Forward {
                target: next_ip,
                delay_secs: PROPAGATION_DELAY_SECS,
                packet: p,
            },
        ),
        PROPAGATION_DELAY_SECS > 0,
{
}

/// A configuration message reaching an already configured relay is
/// reported (`overwrote` is true) — and the new address still replaces the
/// old one.
pub proof fn lemma_reconfiguration_reports_and_overwrites(
    next_ip: Seq<char>,
    p: PacketV,
    addr: Seq<char>,
)
    requires
        next_ip.len() > 0,
        p.packet_type == PacketType::RootConfiguration,
        p.data matches Some(d) && d.next_relay_address == Some(addr),
    ensures
        spec_relay_step(next_ip, p) == (addr, RelayActionV::SetNextHop { overwrote: true }),
{
}

/// A malformed line is harmless: it neither closes the connection nor
/// changes the forwarding state, and a well-formed line right after it is
/// handled exactly as it would have been on its own.
pub proof fn lemma_malformed_line_is_harmless(next_ip: Seq<char>, bad: Seq<char>, good: Seq<char>)
    requires
        crate::codec::spec_trim(bad).len() > 0,
        crate::codec::spec_parse_packet(crate::codec::spec_trim(bad)) is None,
    ensures
        spec_relay_line_step(next_ip, bad) == (next_ip, RelayLineResultV::DroppedMalformed),
        spec_relay_line_step(spec_relay_line_step(next_ip, bad).0, good) == spec_relay_line_step(
            next_ip,
            good,
        ),
{
}

} // verus!
