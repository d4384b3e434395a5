use srbnfs::codec::{classify_line, parse_packet, serialize_packet, trim_line, LineOutcome};
use srbnfs::packet::{Identity, Packet, PacketData, PacketType, ProtocolInfo};

fn assert_packets_equal(a: &Packet, b: &Packet) {
    assert_eq!(a.packet_type, b.packet_type);
    match (&a.protocol_info, &b.protocol_info) {
        (None, None) => {}
        (Some(x), Some(y)) => {
            assert_eq!(x.version, y.version);
            assert_eq!(x.github_url, y.github_url);
        }
        _ => panic!("protocol_info presence differs"),
    }
    match (&a.data, &b.data) {
        (None, None) => {}
        (Some(x), Some(y)) => {
            assert_eq!(x.program_name, y.program_name);
            assert_eq!(x.identity, y.identity);
            assert_eq!(x.next_relay_address, y.next_relay_address);
            assert_eq!(x.file_name, y.file_name);
            assert_eq!(x.file_content, y.file_content);
            assert_eq!(x.start_time, y.start_time);
        }
        _ => panic!("data presence differs"),
    }
}

fn round_trip(p: &Packet) -> Packet {
    let line = serialize_packet(p);
    let q = parse_packet(&line).expect("a serialized packet must parse back");
    assert_packets_equal(p, &q);
    q
}

#[test]
fn round_trip_handshake_bare() {
    round_trip(&Packet::new(PacketType::Handshake, false));
}

#[test]
fn round_trip_handshake_with_protocol_info_and_identity() {
    let mut p = Packet::new(PacketType::Handshake, true);
    let mut data = PacketData::empty();
    data.program_name = Some("srbnfs_root_server".to_string());
    data.identity = Some(Identity::RootServer);
    p.data = Some(data);
    round_trip(&p);
}

#[test]
fn round_trip_root_configuration() {
    let mut p = Packet::new(PacketType::RootConfiguration, true);
    let mut data = PacketData::empty();
    data.next_relay_address = Some("relay-b:9002".to_string());
    p.data = Some(data);
    round_trip(&p);
}

#[test]
fn round_trip_relay_file() {
    let p = Packet::new_relay_file("report.txt".to_string(), "aGVsbG8=".to_string(), 1700000000);
    round_trip(&p);
}

#[test]
fn round_trip_inject_file() {
    let mut p = Packet::new(PacketType::InjectFile, true);
    let mut data = PacketData::empty();
    data.file_name = Some("report.txt".to_string());
    data.file_content = Some("aGVsbG8=".to_string());
    p.data = Some(data);
    round_trip(&p);
}

#[test]
fn round_trip_every_identity() {
    for id in [
        Identity::Unknown,
        Identity::RootServer,
        Identity::Relay,
        Identity::Listener,
    ] {
        let mut p = Packet::new(PacketType::Handshake, false);
        let mut data = PacketData::empty();
        data.identity = Some(id);
        p.data = Some(data);
        round_trip(&p);
    }
}

#[test]
fn round_trip_empty_payload_object() {
    let mut p = Packet::new(PacketType::Handshake, false);
    p.data = Some(PacketData::empty());
    let q = round_trip(&p);
    assert!(q.data.is_some());
}

#[test]
fn round_trip_fields_needing_escapes() {
    let mut p = Packet::new(PacketType::RelayFile, false);
    let mut data = PacketData::empty();
    data.file_name = Some("a \"quoted\" name\\with\\backslashes".to_string());
    data.file_content = Some("line one\nline two\r\ttabbed".to_string());
    p.data = Some(data);
    let line = serialize_packet(&p);
    assert!(!line.contains('\n'), "a serialized packet must stay on one line");
    round_trip(&p);
}

#[test]
fn round_trip_start_time_bounds() {
    for t in [0u64, 1, u64::MAX] {
        let p = Packet::new_relay_file("f".to_string(), "c".to_string(), t);
        let q = round_trip(&p);
        assert_eq!(q.data.unwrap().start_time, Some(t));
    }
}

#[test]
fn serialized_form_is_exactly_the_documented_line() {
    let p = Packet::new(PacketType::Handshake, true);
    let line = serialize_packet(&p);
    assert_eq!(
        line,
        "{\"packet_type\":\"Handshake\",\"protocol_info\":{\"version\":\"2.0\",\
         \"github_url\":\"https://github.com/Hunters8568/SRBNFS\"},\"data\":null}"
    );
}

#[test]
fn serialized_relay_file_line_is_exact() {
    let p = Packet::new_relay_file("f.txt".to_string(), "aGk=".to_string(), 42);
    let line = serialize_packet(&p);
    assert_eq!(
        line,
        "{\"packet_type\":\"RelayFile\",\"protocol_info\":null,\"data\":{\
         \"ProgramName\":null,\"Identity\":null,\"NextRelayAddress\":null,\
         \"FileName\":\"f.txt\",\"FileContent\":\"aGk=\",\"StartTime\":42}}"
    );
}

#[test]
fn serialized_line_is_valid_json() {
    let mut p = Packet::new(PacketType::RelayFile, true);
    let mut data = PacketData::empty();
    data.file_name = Some("quo\"te.txt".to_string());
    data.file_content = Some("aGVsbG8=".to_string());
    data.start_time = Some(1700000000);
    p.data = Some(data);
    let line = serialize_packet(&p);
    let v: serde_json::Value = serde_json::from_str(&line).expect("must be valid JSON");
    assert_eq!(v["packet_type"], "RelayFile");
    assert_eq!(v["protocol_info"]["version"], "2.0");
    assert_eq!(v["data"]["FileName"], "quo\"te.txt");
    assert_eq!(v["data"]["FileContent"], "aGVsbG8=");
    assert_eq!(v["data"]["StartTime"], 1700000000u64);
    assert!(v["data"]["NextRelayAddress"].is_null());
}

#[test]
fn parse_rejects_malformed_lines() {
    for bad in [
        "",
        "not json at all",
        "{\"packet_type\":\"Handshake\"}",
        "{\"packet_type\":\"NoSuchKind\",\"protocol_info\":null,\"data\":null}",
        "{\"packet_type\":\"Handshake\",\"protocol_info\":null,\"data\":null",
        "{\"packet_type\":\"Handshake\",\"protocol_info\":null,\"data\":null}}",
        "{\"packet_type\":\"Handshake\",\"protocol_info\":null,\"data\":null} ",
        "{\"packet_type\":\"Handshake\",\"protocol_info\":null,\"data\":{\"ProgramName\":null}}",
    ] {
        assert!(parse_packet(bad).is_none(), "must reject: {:?}", bad);
    }
}

#[test]
fn parse_rejects_numbers_beyond_u64() {
    let line = "{\"packet_type\":\"RelayFile\",\"protocol_info\":null,\"data\":{\
        \"ProgramName\":null,\"Identity\":null,\"NextRelayAddress\":null,\
        \"FileName\":\"f\",\"FileContent\":\"c\",\"StartTime\":18446744073709551616}}";
    assert!(parse_packet(line).is_none());
    let max = "{\"packet_type\":\"RelayFile\",\"protocol_info\":null,\"data\":{\
        \"ProgramName\":null,\"Identity\":null,\"NextRelayAddress\":null,\
        \"FileName\":\"f\",\"FileContent\":\"c\",\"StartTime\":18446744073709551615}}";
    let p = parse_packet(max).expect("u64::MAX itself fits");
    assert_eq!(p.data.unwrap().start_time, Some(u64::MAX));
}

#[test]
fn parse_rejects_dangling_escape_and_unknown_escape() {
    let dangling = "{\"packet_type\":\"RelayFile\",\"protocol_info\":null,\"data\":{\
        \"ProgramName\":null,\"Identity\":null,\"NextRelayAddress\":null,\
        \"FileName\":\"f\\";
    assert!(parse_packet(dangling).is_none());
    let unknown = "{\"packet_type\":\"RelayFile\",\"protocol_info\":null,\"data\":{\
        \"ProgramName\":null,\"Identity\":null,\"NextRelayAddress\":null,\
        \"FileName\":\"f\\x\",\"FileContent\":null,\"StartTime\":null}}";
    assert!(parse_packet(unknown).is_none());
}

#[test]
fn trim_line_strips_surrounding_whitespace_only() {
    assert_eq!(trim_line("  hello \r\n"), "hello");
    assert_eq!(trim_line("\t\n"), "");
    assert_eq!(trim_line("a b"), "a b");
    assert_eq!(trim_line(""), "");
}

#[test]
fn classify_blank_line_as_disconnect() {
    assert!(matches!(classify_line(""), LineOutcome::Disconnect));
    assert!(matches!(classify_line("  \r\n"), LineOutcome::Disconnect));
}

#[test]
fn classify_malformed_line_as_dropped() {
    assert!(matches!(classify_line("garbage\n"), LineOutcome::Malformed));
}

#[test]
fn classify_parses_a_line_with_its_terminator() {
    let p = Packet::new(PacketType::Handshake, false);
    let mut line = serialize_packet(&p);
    line.push('\n');
    match classify_line(&line) {
        LineOutcome::Parsed(q) => assert_packets_equal(&p, &q),
        _ => panic!("a well-formed line must parse"),
    }
}

#[test]
fn protocol_info_new_carries_version() {
    let pi = ProtocolInfo::new();
    assert_eq!(pi.version, "2.0");
}

#[test]
fn packet_new_with_and_without_protocol_info() {
    let with = Packet::new(PacketType::InjectFile, true);
    assert!(with.protocol_info.is_some());
    assert!(with.data.is_none());
    let without = Packet::new(PacketType::InjectFile, false);
    assert!(without.protocol_info.is_none());
}

#[test]
fn round_trip_empty_string_fields() {
    let mut p = Packet::new(PacketType::RelayFile, false);
    let mut data = PacketData::empty();
    data.file_name = Some(String::new());
    data.file_content = Some(String::new());
    p.data = Some(data);
    let q = round_trip(&p);
    assert_eq!(q.data.as_ref().unwrap().file_name, Some(String::new()));
}

#[test]
fn round_trip_every_field_present() {
    let mut p = Packet::new(PacketType::Handshake, true);
    let mut data = PacketData::empty();
    data.program_name = Some("srbnfs_cli".to_string());
    data.identity = Some(Identity::Listener);
    data.next_relay_address = Some("relay-a:9001".to_string());
    data.file_name = Some("report.txt".to_string());
    data.file_content = Some("aGVsbG8=".to_string());
    data.start_time = Some(1700000000);
    p.data = Some(data);
    round_trip(&p);
}
