//! The coordinator: it provisions every relay's forwarding target by
//! walking the ring once at startup, and then runs a single serialized
//! event loop over the live-client registry — adding and removing
//! connections, kicking injected files into the ring, and fanning every
//! broadcast out to the directly attached clients. The decisions live
//! here; the surrounding process owns the sockets, the threads and the
//! queue, and performs the actions this module hands back.

use crate::codec::{classify_line, spec_classify_line, LineOutcome, LineOutcomeV};
use crate::packet::{Identity, Packet, PacketDataV, PacketType, PacketV};
use crate::ring::RingBuffer;
use vstd::prelude::*;

verus! {

/// One entry of the coordinator's registry: a connection's stable
/// identifier (assigned at accept time) and the identity its handshake
/// declared. The stream handle itself stays with the surrounding process,
/// keyed by the same identifier.
#[derive(Clone, Copy, PartialEq, Eq, Structural, Debug)]
pub struct RootServerClient {
    pub conn_id: u64,
    pub id: Identity,
}

/// What reaches the event loop. Reader tasks and the accept loop produce
/// these; the event loop is their only consumer.
pub enum Event {
    ClientConnected(u64),
    ClientDisconnected(u64),
    RelayPacket(Packet),
    InjectFile(String, String),
}

#[verifier::ext_equal]
pub ghost enum EventV {
    ClientConnected(u64),
    ClientDisconnected(u64),
    RelayPacket(PacketV),
    InjectFile(Seq<char>, Seq<char>),
}

impl View for Event {
    type V = EventV;

    open spec fn view(&self) -> EventV {
        match self {
            Event::ClientConnected(id) => EventV::ClientConnected(*id),
            Event::ClientDisconnected(id) => EventV::ClientDisconnected(*id),
            Event::RelayPacket(p) => EventV::RelayPacket(p@),
            Event::InjectFile(n, c) => EventV::InjectFile(n@, c@),
        }
    }
}

// ---------------------------------------------------------------------------
// The per-connection reader
// ---------------------------------------------------------------------------
/// What the reader of one connection does with one packet. Each variant
/// maps to one log line in the surrounding process; only `Enqueue` reaches
/// the event loop.
pub enum ReaderAction {
    /// A handshake was accepted (the declared identity, if it changed
    /// anything, is in the returned identity).
    AcknowledgeHandshake,
    /// A packet with no payload: dropped, reading continues.
    DropMissingPayload,
    /// A handshake without a declared identity: dropped, with an error.
    DropMissingIdentity,
    /// A handshake declaring no recognizable role: dropped, with an error.
    DropInvalidIdentity,
    /// A configuration message at the coordinator: always an error,
    /// ignored.
    RejectConfiguration,
    /// Hand this event to the event loop.
    Enqueue(Event),
    /// A file injection lacking its name or content: dropped, with a
    /// warning.
    DropMissingFileFields,
}

#[verifier::ext_equal]
pub ghost enum ReaderActionV {
    AcknowledgeHandshake,
    DropMissingPayload,
    DropMissingIdentity,
    DropInvalidIdentity,
    RejectConfiguration,
    Enqueue(EventV),
    DropMissingFileFields,
}

impl View for ReaderAction {
    type V = ReaderActionV;

    open spec fn view(&self) -> ReaderActionV {
        match self {
            ReaderAction::AcknowledgeHandshake => ReaderActionV::AcknowledgeHandshake,
            ReaderAction::DropMissingPayload => ReaderActionV::DropMissingPayload,
            ReaderAction::DropMissingIdentity => ReaderActionV::DropMissingIdentity,
            ReaderAction::DropInvalidIdentity => ReaderActionV::DropInvalidIdentity,
            ReaderAction::RejectConfiguration => ReaderActionV::RejectConfiguration,
            ReaderAction::Enqueue(ev) => ReaderActionV::Enqueue(ev@),
            ReaderAction::DropMissingFileFields => ReaderActionV::DropMissingFileFields,
        }
    }
}

/// The reader's transition: from the connection's recorded identity and
/// one packet to the new identity and the action taken. A declared
/// `RootServer` and a declared `Relay` are both recorded as `RootServer`;
/// a declared `Listener` is accepted without changing the recorded
/// identity.
pub open spec fn spec_reader_step(id: Identity, p: PacketV) -> (Identity, ReaderActionV) {
    match p.data {
        None => (id, ReaderActionV::DropMissingPayload),
        Some(d) => match p.packet_type {
            PacketType::Handshake => match d.identity {
                None => (id, ReaderActionV::DropMissingIdentity),
                Some(Identity::Unknown) => (id, ReaderActionV::DropInvalidIdentity),
                Some(Identity::RootServer) => (
                    Identity::RootServer,
                    ReaderActionV::AcknowledgeHandshake,
                ),
                Some(Identity::Relay) => (Identity::RootServer, ReaderActionV::AcknowledgeHandshake),
                Some(Identity::Listener) => (id, ReaderActionV::AcknowledgeHandshake),
            },
            PacketType::RootConfiguration => (id, ReaderActionV::RejectConfiguration),
            PacketType::RelayFile => (id, ReaderActionV::Enqueue(EventV::RelayPacket(p))),
            PacketType::InjectFile => match (d.file_name, d.file_content) {
                (Some(n), Some(c)) => (id, ReaderActionV::Enqueue(EventV::InjectFile(n, c))),
                _ => (id, ReaderActionV::DropMissingFileFields),
            },
        },
    }
}

/// Handle one packet on a coordinator connection: record a declared
/// identity, refuse configuration, and turn file traffic into events.
pub fn reader_step(id: Identity, packet: &Packet) -> (r: (Identity, ReaderAction))
    ensures
        (r.0, r.1@) == spec_reader_step(id, packet@),
{
    let data = match &packet.data {
        None => {
            return (id, ReaderAction::DropMissingPayload);
        },
        Some(d) => d,
    };
    match packet.packet_type {
        PacketType::Handshake => {
            match data.identity {
                None => (id, ReaderAction::DropMissingIdentity),
                Some(Identity::Unknown) => (id, ReaderAction::DropInvalidIdentity),
                Some(Identity::RootServer) => (
                    Identity::RootServer,
                    ReaderAction::AcknowledgeHandshake,
                ),
                Some(Identity::Relay) => (Identity::RootServer, ReaderAction::AcknowledgeHandshake),
                Some(Identity::Listener) => (id, ReaderAction::AcknowledgeHandshake),
            }
        },
        PacketType::RootConfiguration => (id, ReaderAction::RejectConfiguration),
        PacketType::RelayFile => (id, ReaderAction::Enqueue(Event::RelayPacket(packet.clone()))),
        PacketType::InjectFile => {
            match (&data.file_name, &data.file_content) {
                (Some(n), Some(c)) => (
                    id,
                    ReaderAction::Enqueue(Event::InjectFile(n.clone(), c.clone())),
                ),
                _ => (id, ReaderAction::DropMissingFileFields),
            }
        },
    }
}

/// The outcome of reading one line on a coordinator connection.
pub enum ReaderLineResult {
    /// The peer closed (blank line): enqueue the disconnect and stop.
    Disconnected,
    /// The line spelled no packet: dropped, reading continues.
    DroppedMalformed,
    /// A packet was handled.
    Acted(ReaderAction),
}

#[verifier::ext_equal]
pub ghost enum ReaderLineResultV {
    Disconnected,
    DroppedMalformed,
    Acted(ReaderActionV),
}

impl View for ReaderLineResult {
    type V = ReaderLineResultV;

    open spec fn view(&self) -> ReaderLineResultV {
        match self {
            ReaderLineResult::Disconnected => ReaderLineResultV::Disconnected,
            ReaderLineResult::DroppedMalformed => ReaderLineResultV::DroppedMalformed,
            ReaderLineResult::Acted(a) => ReaderLineResultV::Acted(a@),
        }
    }
}

pub open spec fn spec_reader_line_step(id: Identity, line: Seq<char>) -> (
    Identity,
    ReaderLineResultV,
) {
    match spec_classify_line(line) {
        LineOutcomeV::Disconnect => (id, ReaderLineResultV::Disconnected),
        LineOutcomeV::Malformed => (id, ReaderLineResultV::DroppedMalformed),
        LineOutcomeV::Parsed(p) => {
            let (id2, a) = spec_reader_step(id, p);
            (id2, ReaderLineResultV::Acted(a))
        },
    }
}

/// Read one raw line on a coordinator connection.
pub fn reader_handle_line(id: Identity, line: &str) -> (r: (Identity, ReaderLineResult))
    ensures
        (r.0, r.1@) == spec_reader_line_step(id, line@),
{
    match classify_line(line) {
        LineOutcome::Disconnect => (id, ReaderLineResult::Disconnected),
        LineOutcome::Malformed => (id, ReaderLineResult::DroppedMalformed),
        LineOutcome::Parsed(p) => {
            let (id2, a) = reader_step(id, &p);
            (id2, ReaderLineResult::Acted(a))
        },
    }
}

/// As on a relay, a malformed line at a coordinator reader neither closes
/// the connection nor changes anything: the next well-formed line is
/// handled as if the malformed one had never arrived.
pub proof fn lemma_reader_malformed_line_is_harmless(
    id: Identity,
    bad: Seq<char>,
    good: Seq<char>,
)
    requires
        crate::codec::spec_trim(bad).len() > 0,
        crate::codec::spec_parse_packet(crate::codec::spec_trim(bad)) is None,
    ensures
        spec_reader_line_step(id, bad) == (id, ReaderLineResultV::DroppedMalformed),
        spec_reader_line_step(spec_reader_line_step(id, bad).0, good) == spec_reader_line_step(
            id,
            good,
        ),
{
}

// ---------------------------------------------------------------------------
// The event loop
// ---------------------------------------------------------------------------
/// What the event loop asks the surrounding process to do, in order. Only
/// the registry itself is mutated here; every outward effect is one of
/// these.
pub enum RootAction {
    /// A reader task for this connection is to be started.
    StartReader { conn_id: u64 },
    /// Dial `target` (the first relay past the coordinator), send the
    /// packet, then shut the connection down. If the dial fails, this
    /// file's propagation is abandoned (logged) and the remaining actions
    /// of this event are skipped: no client is informed of the file.
    RingSend { target: String, packet: Packet },
    /// Send the packet on the registered connection `conn_id`.
    Deliver { conn_id: u64, packet: Packet },
    /// Build a fresh file-broadcast packet — stamped at the moment it is
    /// built — and send it on connection `conn_id`.
    DeliverFresh { conn_id: u64, file_name: String, file_content: String },
    /// A disconnect arrived for a connection that is not registered:
    /// reported as an error.
    ReportUnknownClient,
}

#[verifier::ext_equal]
pub ghost enum RootActionV {
    StartReader { conn_id: u64 },
    RingSend { target: Seq<char>, packet: PacketV },
    Deliver { conn_id: u64, packet: PacketV },
    DeliverFresh { conn_id: u64, file_name: Seq<char>, file_content: Seq<char> },
    ReportUnknownClient,
}

impl View for RootAction {
    type V = RootActionV;

    open spec fn view(&self) -> RootActionV {
        match self {
            RootAction::StartReader { conn_id } => RootActionV::StartReader { conn_id: *conn_id },
            RootAction::RingSend { target, packet } => RootActionV::RingSend {
                target: target@,
                packet: packet@,
            },
            RootAction::Deliver { conn_id, packet } => RootActionV::Deliver {
                conn_id: *conn_id,
                packet: packet@,
            },
            RootAction::DeliverFresh { conn_id, file_name, file_content } => {
                RootActionV::DeliverFresh {
                    conn_id: *conn_id,
                    file_name: file_name@,
                    file_content: file_content@,
                }
            },
            RootAction::ReportUnknownClient => RootActionV::ReportUnknownClient,
        }
    }
}

pub open spec fn view_actions(s: Seq<RootAction>) -> Seq<RootActionV> {
    s.map_values(|a: RootAction| a@)
}

/// No two registry entries share a connection identifier.
pub open spec fn distinct_ids(reg: Seq<RootServerClient>) -> bool {
    forall|i: int, j: int| 0 <= i < j < reg.len() ==> reg[i].conn_id != reg[j].conn_id
}

/// The first registry index holding `id`, or -1.
pub open spec fn find_client(reg: Seq<RootServerClient>, id: u64) -> int
    decreases reg.len(),
{
    if reg.len() == 0 {
        -1
    } else if reg[0].conn_id == id {
        0
    } else {
        let r = find_client(reg.skip(1), id);
        if r == -1 {
            -1
        } else {
            r + 1
        }
    }
}

pub proof fn lemma_find_client_props(reg: Seq<RootServerClient>, id: u64)
    ensures
        find_client(reg, id) == -1 ==> forall|i: int|
            0 <= i < reg.len() ==> (#[trigger] reg[i]).conn_id != id,
        find_client(reg, id) != -1 ==> {
            &&& 0 <= find_client(reg, id) < reg.len()
            &&& reg[find_client(reg, id)].conn_id == id
            &&& forall|i: int| 0 <= i < find_client(reg, id) ==> (#[trigger] reg[i]).conn_id != id
        },
    decreases reg.len(),
{
    if reg.len() > 0 && reg[0].conn_id != id {
        lemma_find_client_props(reg.skip(1), id);
        assert(forall|i: int| 1 <= i < reg.len() ==> reg[i] == reg.skip(1)[i - 1]);
    }
}

/// The file-broadcast packet the coordinator builds for an injected file.
pub open spec fn spec_relay_file_packet(name: Seq<char>, content: Seq<char>, now: u64) -> PacketV {
    PacketV {
        packet_type: PacketType::RelayFile,
        protocol_info: None,
        data: Some(
            PacketDataV {
                program_name: None,
                identity: None,
                next_relay_address: None,
                file_name: Some(name),
                file_content: Some(content),
                start_time: Some(now),
            },
        ),
    }
}

/// The event loop's transition: from the registry, the ring and one event
/// to the new registry and the outward actions, in order. `now` is the
/// moment the event is processed, in seconds since the epoch.
pub open spec fn spec_handle_event(
    reg: Seq<RootServerClient>,
    ring: Seq<Seq<char>>,
    ev: EventV,
    now: u64,
) -> (Seq<RootServerClient>, Seq<RootActionV>) {
    match ev {
        EventV::ClientConnected(id) => (
            reg.push(RootServerClient { conn_id: id, id: Identity::Unknown }),
            seq![RootActionV::StartReader { conn_id: id }],
        ),
        EventV::ClientDisconnected(id) => {
            let ix = find_client(reg, id);
            if ix == -1 {
                (reg, seq![RootActionV::ReportUnknownClient])
            } else {
                (reg.remove(ix), Seq::<RootActionV>::empty())
            }
        },
        EventV::RelayPacket(p) => (
            reg,
            seq![RootActionV::RingSend { target: ring[1], packet: p }] + reg.map_values(
                |c: RootServerClient| RootActionV::Deliver { conn_id: c.conn_id, packet: p },
            ),
        ),
        EventV::InjectFile(name, content) => (
            reg,
            seq![
                RootActionV::RingSend {
                    target: ring[1],
                    packet: spec_relay_file_packet(name, content, now),
                },
            ] + reg.map_values(
                |c: RootServerClient| RootActionV::DeliverFresh {
                    conn_id: c.conn_id,
                    file_name: name,
                    file_content: content,
                },
            ),
        ),
    }
}

/// The coordinator's state: the registry of live client connections and
/// the ring it injects files into. The registry is mutated only through
/// `handle_event`, the single serialized consumer of the event queue.
pub struct RootServer {
    client_list: Vec<RootServerClient>,
    relay_server_ring: RingBuffer,
}

impl RootServer {
    pub closed spec fn registry(&self) -> Seq<RootServerClient> {
        self.client_list@
    }

    pub closed spec fn ring(&self) -> Seq<Seq<char>> {
        self.relay_server_ring.ring()
    }

    pub closed spec fn ring_ok(&self) -> bool {
        self.relay_server_ring.wf()
    }

    pub open spec fn wf(&self) -> bool {
        distinct_ids(self.registry()) && self.ring_ok()
    }

    pub fn new(relay_server_ring: RingBuffer) -> (r: Self)
        requires
            relay_server_ring.wf(),
        ensures
            r.wf(),
            r.registry() == Seq::<RootServerClient>::empty(),
            r.ring() == relay_server_ring.ring(),
    {
        let r = RootServer { client_list: Vec::new(), relay_server_ring };
        assert(r.registry() =~= Seq::<RootServerClient>::empty());
        r
    }

    /// Process one event: the sole place the registry changes. A
    /// disconnect removes exactly the entry whose stable identifier the
    /// event carries, never a guess. The returned actions are to be
    /// performed in order; every outward call the loop makes is among
    /// them.
    pub fn handle_event(&mut self, ev: Event, now: u64) -> (actions: Vec<RootAction>)
        requires
            old(self).wf(),
            ev@ matches EventV::ClientConnected(id) ==> find_client(old(self).registry(), id)
                == -1,
            (ev@ is RelayPacket || ev@ is InjectFile) ==> old(self).ring().len() >= 2,
        ensures
            final(self).wf(),
            final(self).ring() == old(self).ring(),
            (final(self).registry(), view_actions(actions@)) == spec_handle_event(
                old(self).registry(),
                old(self).ring(),
                ev@,
                now,
            ),
    {
        match ev {
            Event::ClientConnected(id) => {
                proof {
                    lemma_find_client_props(self.client_list@, id);
                }
                self.client_list.push(RootServerClient { conn_id: id, id: Identity::Unknown });
                let mut actions: Vec<RootAction> = Vec::new();
                actions.push(RootAction::StartReader { conn_id: id });
                proof {
                    assert(view_actions(actions@) =~= seq![
                        RootActionV::StartReader { conn_id: id },
                    ]);
                }
                actions
            },
            Event::ClientDisconnected(id) => {
                proof {
                    lemma_find_client_props(self.client_list@, id);
                }
                let mut i: usize = 0;
                let n = self.client_list.len();
                while i < n && self.client_list[i].conn_id != id
                    invariant
                        n == self.client_list.len(),
                        i <= n,
                        forall|m: int|
                            0 <= m < i ==> (#[trigger] self.client_list@[m]).conn_id != id,
                    decreases n - i,
                {
                    i = i + 1;
                }
                let mut actions: Vec<RootAction> = Vec::new();
                if i < n {
                    proof {
                        lemma_find_client_first(self.client_list@, id, i as int);
                    }
                    self.client_list.remove(i);
                    proof {
                        assert(view_actions(actions@) =~= Seq::<RootActionV>::empty());
                        assert(distinct_ids(self.client_list@)) by {
                            assert(forall|a: int|
                                0 <= a < self.client_list@.len() ==> self.client_list@[a]
                                    == if a < i as int {
                                    old(self).registry()[a]
                                } else {
                                    old(self).registry()[a + 1]
                                });
                        }
                    }
                } else {
                    proof {
                        lemma_find_client_none(self.client_list@, id);
                    }
                    actions.push(RootAction::ReportUnknownClient);
                    proof {
                        assert(view_actions(actions@) =~= seq![RootActionV::ReportUnknownClient]);
                    }
                }
                actions
            },
            Event::RelayPacket(p) => {
                let target = self.relay_server_ring.at(1);
                let mut actions: Vec<RootAction> = Vec::new();
                actions.push(RootAction::RingSend { target, packet: p.clone() });
                let ghost head = seq![
                    RootActionV::RingSend { target: old(self).ring()[1], packet: p@ },
                ];
                let ghost deliver_of = |c: RootServerClient| RootActionV::Deliver {
                    conn_id: c.conn_id,
                    packet: p@,
                };
                proof {
                    assert(view_actions(actions@) =~= head);
                }
                let n = self.client_list.len();
                let mut i: usize = 0;
                while i < n
                    invariant
                        n == self.client_list.len(),
                        i <= n,
                        self.client_list@ == old(self).registry(),
                        view_actions(actions@) == head + self.client_list@.take(i as int)
                            .map_values(deliver_of),
                        deliver_of == (|c: RootServerClient| RootActionV::Deliver {
                            conn_id: c.conn_id,
                            packet: p@,
                        }),
                    decreases n - i,
                {
                    let c = self.client_list[i];
                    actions.push(RootAction::Deliver { conn_id: c.conn_id, packet: p.clone() });
                    proof {
                        assert(self.client_list@.take(i + 1).drop_last() =~= self.client_list@
                            .take(i as int));
                        assert(self.client_list@.take(i + 1).map_values(deliver_of) =~= self
                            .client_list@.take(i as int).map_values(deliver_of).push(
                            deliver_of(c),
                        ));
                        assert(view_actions(actions@) =~= (head + self.client_list@.take(
                            i as int,
                        ).map_values(deliver_of)).push(deliver_of(c)));
                        assert(view_actions(actions@) =~= head + self.client_list@.take(i + 1)
                            .map_values(deliver_of));
                    }
                    i = i + 1;
                }
                proof {
                    assert(self.client_list@.take(n as int) =~= self.client_list@);
                }
                actions
            },
            Event::InjectFile(name, content) => {
                let target = self.relay_server_ring.at(1);
                let pkt = Packet::new_relay_file(name.clone(), content.clone(), now);
                proof {
                    assert(pkt@ =~= spec_relay_file_packet(name@, content@, now));
                }
                let mut actions: Vec<RootAction> = Vec::new();
                actions.push(RootAction::RingSend { target, packet: pkt });
                let ghost head = seq![
                    RootActionV::RingSend {
                        target: old(self).ring()[1],
                        packet: spec_relay_file_packet(name@, content@, now),
                    },
                ];
                let ghost fresh_of = |c: RootServerClient| RootActionV::DeliverFresh {
                    conn_id: c.conn_id,
                    file_name: name@,
                    file_content: content@,
                };
                proof {
                    assert(view_actions(actions@) =~= head);
                }
                let n = self.client_list.len();
                let mut i: usize = 0;
                while i < n
                    invariant
                        n == self.client_list.len(),
                        i <= n,
                        self.client_list@ == old(self).registry(),
                        view_actions(actions@) == head + self.client_list@.take(i as int)
                            .map_values(fresh_of),
                        fresh_of == (|c: RootServerClient| RootActionV::DeliverFresh {
                            conn_id: c.conn_id,
                            file_name: name@,
                            file_content: content@,
                        }),
                    decreases n - i,
                {
                    let c = self.client_list[i];
                    actions.push(
                        RootAction::DeliverFresh {
                            conn_id: c.conn_id,
                            file_name: name.clone(),
                            file_content: content.clone(),
                        },
                    );
                    proof {
                        assert(self.client_list@.take(i + 1).drop_last() =~= self.client_list@
                            .take(i as int));
                        assert(self.client_list@.take(i + 1).map_values(fresh_of) =~= self
                            .client_list@.take(i as int).map_values(fresh_of).push(fresh_of(c)));
                        assert(view_actions(actions@) =~= (head + self.client_list@.take(
                            i as int,
                        ).map_values(fresh_of)).push(fresh_of(c)));
                        assert(view_actions(actions@) =~= head + self.client_list@.take(i + 1)
                            .map_values(fresh_of));
                    }
                    i = i + 1;
                }
                proof {
                    assert(self.client_list@.take(n as int) =~= self.client_list@);
                }
                actions
            },
        }
    }
}

proof fn lemma_find_client_first(reg: Seq<RootServerClient>, id: u64, i: int)
    requires
        0 <= i < reg.len(),
        reg[i].conn_id == id,
        forall|m: int| 0 <= m < i ==> (#[trigger] reg[m]).conn_id != id,
    ensures
        find_client(reg, id) == i,
    decreases reg.len(),
{
    if i > 0 {
        assert(reg[0].conn_id != id);
        assert(forall|m: int| 1 <= m < reg.len() ==> reg[m] == reg.skip(1)[m - 1]);
        lemma_find_client_first(reg.skip(1), id, i - 1);
    }
}

proof fn lemma_find_client_none(reg: Seq<RootServerClient>, id: u64)
    requires
        forall|m: int| 0 <= m < reg.len() ==> (#[trigger] reg[m]).conn_id != id,
    ensures
        find_client(reg, id) == -1,
    decreases reg.len(),
{
    if reg.len() > 0 {
        assert(forall|m: int| 1 <= m < reg.len() ==> reg[m] == reg.skip(1)[m - 1]);
        lemma_find_client_none(reg.skip(1), id);
    }
}

// ---------------------------------------------------------------------------
// Startup provisioning
// ---------------------------------------------------------------------------
/// The startup walk that wires the ring: for every ring position past the
/// coordinator, the relay's address and the forwarding target it is to be
/// sent — the address one position further, wrapping to the coordinator at
/// the end. The surrounding process dials each relay in order and sends a
/// configuration message; one failed dial aborts startup.
pub fn provisioning_plan(ring: &mut RingBuffer) -> (plan: Vec<(String, String)>)
    requires
        old(ring).wf(),
        old(ring).cursor() == 0,
        old(ring).ring().len() >= 1,
    ensures
        final(ring).wf(),
        final(ring).ring() == old(ring).ring(),
        plan@.len() == old(ring).ring().len() - 1,
        forall|i: int|
            1 <= i < old(ring).ring().len() ==> (#[trigger] plan@[i - 1]).0@ == old(
                ring,
            ).ring()[i] && plan@[i - 1].1@ == old(ring).ring()[(i + 1) % (old(
                ring,
            ).ring().len() as int)],
{
    let ghost g = old(ring).ring();
    let len = ring.len();
    let _ = ring.next();  // skip the coordinator's own address
    let mut plan: Vec<(String, String)> = Vec::new();
    let mut index: usize = 1;
    while index < len
        invariant
            ring.wf(),
            ring.ring() == g,
            len == g.len(),
            1 <= index <= len,
            index < len ==> ring.cursor() == index,
            index == len ==> ring.cursor() == 0,
            plan@.len() == index - 1,
            forall|i: int|
                1 <= i < index ==> (#[trigger] plan@[i - 1]).0@ == g[i] && plan@[i - 1].1@ == g[(i
                    + 1) % (g.len() as int)],
        decreases len - index,
    {
        let relay_ip = ring.at(index);
        let next_ip = ring.next();
        proof {
            let l = g.len() as int;
            if index + 1 < len {
                vstd::arithmetic::div_mod::lemma_small_mod((index + 1) as nat, l as nat);
            } else {
                vstd::arithmetic::div_mod::lemma_mod_self_0(l);
            }
            assert(next_ip@ == g[(index + 1) % l]);
        }
        plan.push((relay_ip, next_ip));
        index = index + 1;
    }
    plan
}

// ---------------------------------------------------------------------------
// The registry under connects and disconnects
// ---------------------------------------------------------------------------
/// The registry after a batch of connect events, one per identifier, in
/// order.
pub open spec fn connect_all(reg: Seq<RootServerClient>, ids: Seq<u64>) -> Seq<RootServerClient>
    decreases ids.len(),
{
    if ids.len() == 0 {
        reg
    } else {
        connect_all(
            reg.push(RootServerClient { conn_id: ids[0], id: Identity::Unknown }),
            ids.skip(1),
        )
    }
}

proof fn lemma_connect_all_shape(reg: Seq<RootServerClient>, ids: Seq<u64>)
    ensures
        connect_all(reg, ids).len() == reg.len() + ids.len(),
        forall|k: int|
            0 <= k < reg.len() ==> #[trigger] connect_all(reg, ids)[k] == reg[k],
        forall|k: int|
            reg.len() <= k < reg.len() + ids.len() ==> #[trigger] connect_all(reg, ids)[k]
                == (RootServerClient { conn_id: ids[k - reg.len()], id: Identity::Unknown }),
    decreases ids.len(),
{
    if ids.len() > 0 {
        let reg2 = reg.push(RootServerClient { conn_id: ids[0], id: Identity::Unknown });
        lemma_connect_all_shape(reg2, ids.skip(1));
        assert(forall|k: int| 1 <= k < ids.len() ==> ids.skip(1)[k - 1] == ids[k]);
    }
}

/// Connecting distinct clients one by one and then disconnecting one of
/// them leaves exactly the others: one entry fewer, none of them carrying
/// the removed identifier, and each a client that was connected.
pub proof fn lemma_connects_then_disconnect(
    ids: Seq<u64>,
    ring: Seq<Seq<char>>,
    now: u64,
    victim: u64,
)
    requires
        forall|i: int, j: int| 0 <= i < j < ids.len() ==> ids[i] != ids[j],
        ids.contains(victim),
    ensures
        ({
            let reg = connect_all(Seq::<RootServerClient>::empty(), ids);
            let (reg2, acts) = spec_handle_event(
                reg,
                ring,
                EventV::ClientDisconnected(victim),
                now,
            );
            &&& reg2.len() == ids.len() - 1
            &&& acts == Seq::<RootActionV>::empty()
            &&& forall|k: int| 0 <= k < reg2.len() ==> (#[trigger] reg2[k]).conn_id != victim
            &&& forall|k: int|
                0 <= k < reg2.len() ==> ids.contains((#[trigger] reg2[k]).conn_id)
        }),
{
    let reg = connect_all(Seq::<RootServerClient>::empty(), ids);
    lemma_connect_all_shape(Seq::<RootServerClient>::empty(), ids);
    let vi = choose|vi: int| 0 <= vi < ids.len() && ids[vi] == victim;
    assert(reg[vi].conn_id == victim);
    lemma_find_client_props(reg, victim);
    let ix = find_client(reg, victim);
    assert(ix != -1);
    assert(reg[ix].conn_id == victim);
    assert(ids[ix] == victim);
    let reg2 = reg.remove(ix);
    assert forall|k: int| 0 <= k < reg2.len() implies (#[trigger] reg2[k]).conn_id
        != victim && ids.contains(reg2[k].conn_id) by {
        if k < ix {
            assert(reg2[k] == reg[k]);
            assert(reg2[k].conn_id == ids[k]);
            assert(ids[k] != ids[ix]);
        } else {
            assert(reg2[k] == reg[k + 1]);
            assert(reg2[k].conn_id == ids[k + 1]);
            assert(ids[k + 1] != ids[ix]);
        }
    }
}

} // verus!
