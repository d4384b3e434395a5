use base64::Engine;
use srbnfs::codec::serialize_packet;
use srbnfs::packet::{Packet, PacketData, PacketType};
use srbnfs::relay::{relay_handle_line, RelayAction, RelayForwardingState, RelayLineResult};
use srbnfs::ring::RingBuffer;
use srbnfs::root::{provisioning_plan, reader_step, Event, ReaderAction, RootAction, RootServer};

fn ring_of(addrs: &[&str]) -> RingBuffer {
    RingBuffer::new(addrs.iter().map(|a| a.to_string()).collect())
}

/// Drive a relay's state machine with one wire line and collect what it
/// decided.
fn feed_relay(state: &mut RelayForwardingState, packet: &Packet) -> RelayAction {
    let mut line = serialize_packet(packet);
    line.push('\n');
    match relay_handle_line(state, &line) {
        RelayLineResult::Acted(a) => a,
        _ => panic!("the relay must act on a well-formed packet line"),
    }
}

#[test]
fn injected_file_walks_the_ring_and_reaches_every_listener() {
    let encoded = base64::engine::general_purpose::STANDARD.encode("hello");
    let addresses = ["coordinator:7848", "relay-a:9001", "relay-b:9002"];

    // startup: the coordinator wires each relay's forwarding target
    let mut ring = ring_of(&addresses);
    let plan = provisioning_plan(&mut ring);
    assert_eq!(
        plan,
        vec![
            ("relay-a:9001".to_string(), "relay-b:9002".to_string()),
            ("relay-b:9002".to_string(), "coordinator:7848".to_string()),
        ]
    );
    let mut relay_a = RelayForwardingState::new();
    let mut relay_b = RelayForwardingState::new();
    for ((relay_addr, next_addr), state) in plan
        .iter()
        .zip([&mut relay_a, &mut relay_b])
    {
        let mut cfg = Packet::new(PacketType::RootConfiguration, true);
        let mut data = PacketData::empty();
        data.next_relay_address = Some(next_addr.clone());
        cfg.data = Some(data);
        let action = feed_relay(state, &cfg);
        assert!(matches!(action, RelayAction::SetNextHop { overwrote: false }));
        assert_eq!(&state.next_ip, next_addr);
        assert!(relay_addr.starts_with("relay-"));
    }

    // two listeners attach to the coordinator
    let mut server = RootServer::new(ring.clone());
    server.handle_event(Event::ClientConnected(1), 0);
    server.handle_event(Event::ClientConnected(2), 0);

    // a client injects report.txt with content "hello" (base64 on the wire)
    let mut inject = Packet::new(PacketType::InjectFile, true);
    let mut data = PacketData::empty();
    data.file_name = Some("report.txt".to_string());
    data.file_content = Some(encoded.clone());
    inject.data = Some(data);
    let (_, action) = reader_step(srbnfs::packet::Identity::Unknown, &inject);
    let event = match action {
        ReaderAction::Enqueue(ev) => ev,
        _ => panic!("the injection must reach the event loop"),
    };
    let actions = server.handle_event(event, 1700000001);

    // the coordinator sends one copy into the ring, to the first relay
    let ring_packet = match &actions[0] {
        RootAction::RingSend { target, packet } => {
            assert_eq!(target, "relay-a:9001");
            packet.clone()
        }
        _ => panic!("the ring send must come first"),
    };

    // relay A observes one RelayFile named report.txt with content "hello"
    let action_a = feed_relay(&mut relay_a, &ring_packet);
    let forwarded_to_b = match action_a {
        RelayAction::Forward { ref target, delay_secs, ref packet } => {
            assert_eq!(target, "relay-b:9002");
            assert!(delay_secs >= 1);
            packet.clone()
        }
        _ => panic!("relay A must forward the file"),
    };
    let data_a = forwarded_to_b.data.as_ref().unwrap();
    assert_eq!(data_a.file_name, Some("report.txt".to_string()));
    let decoded = base64::engine::general_purpose::STANDARD
        .decode(data_a.file_content.as_ref().unwrap())
        .unwrap();
    assert_eq!(decoded, b"hello");

    // relay B observes its copy too and would pass it back to the
    // coordinator
    let action_b = feed_relay(&mut relay_b, &forwarded_to_b);
    match action_b {
        RelayAction::Forward { ref target, .. } => assert_eq!(target, "coordinator:7848"),
        _ => panic!("relay B must forward the file"),
    }

    // every directly connected listener gets its own copy, freshly stamped
    // when it is built (its timestamp may differ from the ring copy's)
    let fresh: Vec<(u64, Packet)> = actions[1..]
        .iter()
        .map(|a| match a {
            RootAction::DeliverFresh {
                conn_id,
                file_name,
                file_content,
            } => {
                assert_eq!(file_name, "report.txt");
                (*conn_id, Packet::new_relay_file(
                    file_name.clone(),
                    file_content.clone(),
                    1700000099,
                ))
            }
            _ => panic!("listeners get fresh copies"),
        })
        .collect();
    assert_eq!(fresh.len(), 2);
    assert_eq!(fresh[0].0, 1);
    assert_eq!(fresh[1].0, 2);
    for (_, packet) in &fresh {
        let d = packet.data.as_ref().unwrap();
        assert_eq!(d.file_name, Some("report.txt".to_string()));
        let decoded = base64::engine::general_purpose::STANDARD
            .decode(d.file_content.as_ref().unwrap())
            .unwrap();
        assert_eq!(decoded, b"hello");
        assert_eq!(d.start_time, Some(1700000099));
        assert_ne!(d.start_time, ring_packet.data.as_ref().unwrap().start_time);
    }
}
