use srbnfs::codec::serialize_packet;
use srbnfs::packet::{Packet, PacketData, PacketType};
use srbnfs::relay::{
    relay_handle_line, relay_step, RelayAction, RelayForwardingState, RelayLineResult,
    PROPAGATION_DELAY_SECS,
};

fn relay_file_packet() -> Packet {
    Packet::new_relay_file("report.txt".to_string(), "aGVsbG8=".to_string(), 123)
}

fn configuration_packet(addr: &str) -> Packet {
    let mut p = Packet::new(PacketType::RootConfiguration, true);
    let mut data = PacketData::empty();
    data.next_relay_address = Some(addr.to_string());
    p.data = Some(data);
    p
}

#[test]
fn unconfigured_relay_refuses_file_without_dialing() {
    let mut state = RelayForwardingState::new();
    let action = relay_step(&mut state, &relay_file_packet());
    // the outcome names no address, so nothing can be dialed, and the
    // refusal is the single error this connection reports
    assert!(matches!(action, RelayAction::RefuseUnconfigured));
    assert_eq!(state.next_ip, "");
}

#[test]
fn configuration_sets_the_forwarding_target() {
    let mut state = RelayForwardingState::new();
    let action = relay_step(&mut state, &configuration_packet("relay-b:9002"));
    assert!(matches!(action, RelayAction::SetNextHop { overwrote: false }));
    assert_eq!(state.next_ip, "relay-b:9002");
}

#[test]
fn configured_relay_forwards_with_the_propagation_delay() {
    let mut state = RelayForwardingState::new();
    relay_step(&mut state, &configuration_packet("relay-b:9002"));
    let action = relay_step(&mut state, &relay_file_packet());
    match action {
        RelayAction::Forward { target, delay_secs, packet } => {
            assert_eq!(target, "relay-b:9002");
            assert_eq!(delay_secs, PROPAGATION_DELAY_SECS);
            assert!(delay_secs >= 1);
            // the identical packet travels on
            assert_eq!(packet.packet_type, PacketType::RelayFile);
            assert_eq!(
                packet.data.as_ref().unwrap().file_name,
                Some("report.txt".to_string())
            );
        }
        _ => panic!("a configured relay must forward"),
    }
    assert_eq!(state.next_ip, "relay-b:9002");
}

#[test]
fn reconfiguration_reports_and_still_overwrites() {
    let mut state = RelayForwardingState::new();
    relay_step(&mut state, &configuration_packet("relay-b:9002"));
    let action = relay_step(&mut state, &configuration_packet("relay-c:9003"));
    assert!(matches!(action, RelayAction::SetNextHop { overwrote: true }));
    assert_eq!(state.next_ip, "relay-c:9003");
}

#[test]
fn handshake_changes_nothing_at_a_relay() {
    let mut state = RelayForwardingState::new();
    let mut p = Packet::new(PacketType::Handshake, true);
    p.data = Some(PacketData::empty());
    let action = relay_step(&mut state, &p);
    assert!(matches!(action, RelayAction::AcknowledgeHandshake));
    assert_eq!(state.next_ip, "");
}

#[test]
fn injection_at_a_relay_is_refused() {
    let mut state = RelayForwardingState::new();
    relay_step(&mut state, &configuration_packet("relay-b:9002"));
    let mut p = Packet::new(PacketType::InjectFile, false);
    p.data = Some(PacketData::empty());
    let action = relay_step(&mut state, &p);
    assert!(matches!(action, RelayAction::RefuseInject));
    assert_eq!(state.next_ip, "relay-b:9002");
}

#[test]
fn packet_without_payload_is_dropped() {
    let mut state = RelayForwardingState::new();
    let p = Packet::new(PacketType::RelayFile, false);
    let action = relay_step(&mut state, &p);
    assert!(matches!(action, RelayAction::DropMissingPayload));
}

#[test]
fn configuration_without_address_is_dropped() {
    let mut state = RelayForwardingState::new();
    let mut p = Packet::new(PacketType::RootConfiguration, true);
    p.data = Some(PacketData::empty());
    let action = relay_step(&mut state, &p);
    assert!(matches!(action, RelayAction::DropMissingAddress));
    assert_eq!(state.next_ip, "");
}

#[test]
fn malformed_line_keeps_the_connection_and_the_state() {
    let mut state = RelayForwardingState::new();
    relay_step(&mut state, &configuration_packet("relay-b:9002"));
    let r = relay_handle_line(&mut state, "{\"packet_type\": oops\n");
    assert!(matches!(r, RelayLineResult::DroppedMalformed));
    assert_eq!(state.next_ip, "relay-b:9002");
    // a well-formed line right after is handled normally
    let mut line = serialize_packet(&relay_file_packet());
    line.push('\n');
    let r = relay_handle_line(&mut state, &line);
    match r {
        RelayLineResult::Acted(RelayAction::Forward { target, .. }) => {
            assert_eq!(target, "relay-b:9002")
        }
        _ => panic!("the next well-formed packet must still be processed"),
    }
}

#[test]
fn blank_line_disconnects_a_relay_connection() {
    let mut state = RelayForwardingState::new();
    let r = relay_handle_line(&mut state, "\r\n");
    assert!(matches!(r, RelayLineResult::Disconnected));
}
