use srbnfs::packet::{Identity, Packet, PacketData, PacketType};
use srbnfs::ring::RingBuffer;
use srbnfs::root::{
    reader_handle_line, reader_step, Event, ReaderAction, ReaderLineResult, RootAction, RootServer,
};

fn ring_of(addrs: &[&str]) -> RingBuffer {
    RingBuffer::new(addrs.iter().map(|a| a.to_string()).collect())
}

fn handshake_declaring(id: Identity) -> Packet {
    let mut p = Packet::new(PacketType::Handshake, true);
    let mut data = PacketData::empty();
    data.program_name = Some("srbnfs_cli".to_string());
    data.identity = Some(id);
    p.data = Some(data);
    p
}

#[test]
fn reader_records_a_declared_root_server() {
    let (id, action) = reader_step(Identity::Unknown, &handshake_declaring(Identity::RootServer));
    assert_eq!(id, Identity::RootServer);
    assert!(matches!(action, ReaderAction::AcknowledgeHandshake));
}

#[test]
fn reader_records_a_declared_relay_as_root_server() {
    // a declared relay is recorded under the same identity as a root server
    let (id, action) = reader_step(Identity::Unknown, &handshake_declaring(Identity::Relay));
    assert_eq!(id, Identity::RootServer);
    assert!(matches!(action, ReaderAction::AcknowledgeHandshake));
}

#[test]
fn reader_leaves_identity_alone_for_a_listener() {
    let (id, action) = reader_step(Identity::Unknown, &handshake_declaring(Identity::Listener));
    assert_eq!(id, Identity::Unknown);
    assert!(matches!(action, ReaderAction::AcknowledgeHandshake));
}

#[test]
fn reader_rejects_an_unknown_declared_identity() {
    let (id, action) = reader_step(Identity::Unknown, &handshake_declaring(Identity::Unknown));
    assert_eq!(id, Identity::Unknown);
    assert!(matches!(action, ReaderAction::DropInvalidIdentity));
}

#[test]
fn reader_rejects_a_handshake_without_identity() {
    let mut p = Packet::new(PacketType::Handshake, true);
    p.data = Some(PacketData::empty());
    let (id, action) = reader_step(Identity::Unknown, &p);
    assert_eq!(id, Identity::Unknown);
    assert!(matches!(action, ReaderAction::DropMissingIdentity));
}

#[test]
fn reader_drops_a_packet_without_payload() {
    let p = Packet::new(PacketType::Handshake, true);
    let (_, action) = reader_step(Identity::Unknown, &p);
    assert!(matches!(action, ReaderAction::DropMissingPayload));
}

#[test]
fn reader_refuses_configuration_at_the_coordinator() {
    let mut p = Packet::new(PacketType::RootConfiguration, true);
    let mut data = PacketData::empty();
    data.next_relay_address = Some("relay-a:9001".to_string());
    p.data = Some(data);
    let (id, action) = reader_step(Identity::Listener, &p);
    assert_eq!(id, Identity::Listener);
    assert!(matches!(action, ReaderAction::RejectConfiguration));
}

#[test]
fn reader_enqueues_a_relay_file() {
    let p = Packet::new_relay_file("f".to_string(), "c".to_string(), 7);
    let (_, action) = reader_step(Identity::Unknown, &p);
    match action {
        ReaderAction::Enqueue(Event::RelayPacket(q)) => {
            assert_eq!(q.packet_type, PacketType::RelayFile);
            assert_eq!(q.data.unwrap().file_name, Some("f".to_string()));
        }
        _ => panic!("a relay file must reach the event loop"),
    }
}

#[test]
fn reader_enqueues_a_complete_injection() {
    let mut p = Packet::new(PacketType::InjectFile, true);
    let mut data = PacketData::empty();
    data.file_name = Some("report.txt".to_string());
    data.file_content = Some("aGVsbG8=".to_string());
    p.data = Some(data);
    let (_, action) = reader_step(Identity::Unknown, &p);
    match action {
        ReaderAction::Enqueue(Event::InjectFile(name, content)) => {
            assert_eq!(name, "report.txt");
            assert_eq!(content, "aGVsbG8=");
        }
        _ => panic!("a complete injection must reach the event loop"),
    }
}

#[test]
fn reader_drops_an_injection_missing_a_field() {
    for (name, content) in [
        (Some("report.txt"), None),
        (None, Some("aGVsbG8=")),
        (None, None),
    ] {
        let mut p = Packet::new(PacketType::InjectFile, true);
        let mut data = PacketData::empty();
        data.file_name = name.map(|s| s.to_string());
        data.file_content = content.map(|s| s.to_string());
        p.data = Some(data);
        let (_, action) = reader_step(Identity::Unknown, &p);
        assert!(matches!(action, ReaderAction::DropMissingFileFields));
    }
}

#[test]
fn reader_line_blank_means_disconnect() {
    let (id, r) = reader_handle_line(Identity::Listener, "\n");
    assert_eq!(id, Identity::Listener);
    assert!(matches!(r, ReaderLineResult::Disconnected));
}

#[test]
fn reader_line_malformed_then_well_formed() {
    let (id, r) = reader_handle_line(Identity::Unknown, "% not a packet %\n");
    assert_eq!(id, Identity::Unknown);
    assert!(matches!(r, ReaderLineResult::DroppedMalformed));
    let mut line = srbnfs::codec::serialize_packet(&handshake_declaring(Identity::RootServer));
    line.push('\n');
    let (id, r) = reader_handle_line(id, &line);
    assert_eq!(id, Identity::RootServer);
    assert!(matches!(r, ReaderLineResult::Acted(ReaderAction::AcknowledgeHandshake)));
}

#[test]
fn connects_then_one_disconnect_leaves_the_others() {
    // five clients connect; one specific client disconnects; exactly the
    // other four remain
    let mut server = RootServer::new(ring_of(&["c0", "r1"]));
    for id in [10u64, 11, 12, 13, 14] {
        let actions = server.handle_event(Event::ClientConnected(id), 0);
        assert_eq!(actions.len(), 1);
        assert!(matches!(actions[0], RootAction::StartReader { conn_id } if conn_id == id));
    }
    let actions = server.handle_event(Event::ClientDisconnected(12), 0);
    assert!(actions.is_empty());
    // the remaining registry still answers to broadcasts: fan-out reaches
    // exactly the four surviving connections, in order
    let p = Packet::new_relay_file("f".to_string(), "c".to_string(), 1);
    let actions = server.handle_event(Event::RelayPacket(p), 0);
    let delivered: Vec<u64> = actions
        .iter()
        .filter_map(|a| match a {
            RootAction::Deliver { conn_id, .. } => Some(*conn_id),
            _ => None,
        })
        .collect();
    assert_eq!(delivered, vec![10, 11, 13, 14]);
}

#[test]
fn disconnect_of_an_unknown_client_is_reported() {
    let mut server = RootServer::new(ring_of(&["c0", "r1"]));
    server.handle_event(Event::ClientConnected(1), 0);
    let actions = server.handle_event(Event::ClientDisconnected(99), 0);
    assert_eq!(actions.len(), 1);
    assert!(matches!(actions[0], RootAction::ReportUnknownClient));
}

#[test]
fn relay_packet_goes_into_the_ring_first_and_then_to_every_client() {
    let mut server = RootServer::new(ring_of(&["c0:7848", "r1:9001", "r2:9002"]));
    server.handle_event(Event::ClientConnected(1), 0);
    server.handle_event(Event::ClientConnected(2), 0);
    let p = Packet::new_relay_file("report.txt".to_string(), "aGVsbG8=".to_string(), 55);
    let actions = server.handle_event(Event::RelayPacket(p), 0);
    assert_eq!(actions.len(), 3);
    match &actions[0] {
        RootAction::RingSend { target, packet } => {
            assert_eq!(target, "r1:9001");
            assert_eq!(packet.packet_type, PacketType::RelayFile);
            assert_eq!(
                packet.data.as_ref().unwrap().file_name,
                Some("report.txt".to_string())
            );
        }
        _ => panic!("the ring send must come first"),
    }
    for (action, want) in actions[1..].iter().zip([1u64, 2]) {
        match action {
            RootAction::Deliver { conn_id, packet } => {
                assert_eq!(*conn_id, want);
                assert_eq!(packet.data.as_ref().unwrap().start_time, Some(55));
            }
            _ => panic!("every registered client gets its copy"),
        }
    }
}

#[test]
fn injection_builds_a_stamped_packet_and_fans_out_fresh_copies() {
    let mut server = RootServer::new(ring_of(&["c0:7848", "r1:9001"]));
    server.handle_event(Event::ClientConnected(7), 0);
    let actions = server.handle_event(
        Event::InjectFile("report.txt".to_string(), "aGVsbG8=".to_string()),
        1700000000,
    );
    assert_eq!(actions.len(), 2);
    match &actions[0] {
        RootAction::RingSend { target, packet } => {
            assert_eq!(target, "r1:9001");
            assert_eq!(packet.packet_type, PacketType::RelayFile);
            let data = packet.data.as_ref().unwrap();
            assert_eq!(data.file_name, Some("report.txt".to_string()));
            assert_eq!(data.file_content, Some("aGVsbG8=".to_string()));
            assert_eq!(data.start_time, Some(1700000000));
        }
        _ => panic!("the ring send must come first"),
    }
    match &actions[1] {
        RootAction::DeliverFresh {
            conn_id,
            file_name,
            file_content,
        } => {
            assert_eq!(*conn_id, 7);
            assert_eq!(file_name, "report.txt");
            assert_eq!(file_content, "aGVsbG8=");
        }
        _ => panic!("every registered client gets a freshly stamped copy"),
    }
}
