//! The message model: a tagged packet with an optional protocol descriptor
//! and an optional payload of recognized fields. One packet travels as one
//! self-delimited line of text; the codec lives in `codec`.

use vstd::prelude::*;

verus! {

/// The four message kinds carried on the wire.
#[derive(Clone, Copy, PartialEq, Eq, Structural, Debug)]
pub enum PacketType {
    Handshake,
    RootConfiguration,
    RelayFile,
    InjectFile,
}

/// The role a connection declares in its first handshake. A connection is
/// `Unknown` until a handshake is processed.
#[derive(Clone, Copy, PartialEq, Eq, Structural, Debug)]
pub enum Identity {
    Unknown,
    RootServer,
    Relay,
    Listener,
}

/// Mathematical value of a `ProtocolInfo`.
#[verifier::ext_equal]
pub ghost struct ProtocolInfoV {
    pub version: Seq<char>,
    pub github_url: Seq<char>,
}

/// Protocol version and origin-URL metadata attached to handshakes and
/// configuration messages.
pub struct ProtocolInfo {
    pub version: String,
    pub github_url: String,
}

impl View for ProtocolInfo {
    type V = ProtocolInfoV;

    open spec fn view(&self) -> ProtocolInfoV {
        ProtocolInfoV { version: self.version@, github_url: self.github_url@ }
    }
}

impl ProtocolInfo {
    pub fn new() -> (r: Self)
        ensures
            r@.version == "2.0"@,
            r@.github_url == "https://github.com/Hunters8568/SRBNFS"@,
    {
        Self {
            version: String::from_str("2.0"),
            github_url: String::from_str("https://github.com/Hunters8568/SRBNFS"),
        }
    }
}

impl Clone for ProtocolInfo {
    fn clone(&self) -> (r: Self)
        ensures
            r@ == self@,
    {
        Self { version: self.version.clone(), github_url: self.github_url.clone() }
    }
}

/// Mathematical value of a `PacketData`.
#[verifier::ext_equal]
pub ghost struct PacketDataV {
    pub program_name: Option<Seq<char>>,
    pub identity: Option<Identity>,
    pub next_relay_address: Option<Seq<char>>,
    pub file_name: Option<Seq<char>>,
    pub file_content: Option<Seq<char>>,
    pub start_time: Option<u64>,
}

/// The free-form payload of a packet, narrowed to the recognized fields:
/// a program name and declared identity (handshakes), a forwarding target
/// (configuration), and a file name, base64-encoded content and origin
/// timestamp in seconds (file messages). An absent field travels as
/// `null` under its key.
pub struct PacketData {
    pub program_name: Option<String>,
    pub identity: Option<Identity>,
    pub next_relay_address: Option<String>,
    pub file_name: Option<String>,
    pub file_content: Option<String>,
    pub start_time: Option<u64>,
}

pub open spec fn view_opt_string(o: Option<String>) -> Option<Seq<char>> {
    match o {
        Some(s) => Some(s@),
        None => None,
    }
}

impl View for PacketData {
    type V = PacketDataV;

    open spec fn view(&self) -> PacketDataV {
        PacketDataV {
            program_name: view_opt_string(self.program_name),
            identity: self.identity,
            next_relay_address: view_opt_string(self.next_relay_address),
            file_name: view_opt_string(self.file_name),
            file_content: view_opt_string(self.file_content),
            start_time: self.start_time,
        }
    }
}

impl PacketData {
    /// A payload with every field absent.
    pub fn empty() -> (r: Self)
        ensures
            r@ == (PacketDataV {
                program_name: None,
                identity: None,
                next_relay_address: None,
                file_name: None,
                file_content: None,
                start_time: None,
            }),
    {
        Self {
            program_name: None,
            identity: None,
            next_relay_address: None,
            file_name: None,
            file_content: None,
            start_time: None,
        }
    }
}

fn clone_opt_string(o: &Option<String>) -> (r: Option<String>)
    ensures
        view_opt_string(r) == view_opt_string(*o),
{
    match o {
        Some(s) => Some(s.clone()),
        None => None,
    }
}

impl Clone for PacketData {
    fn clone(&self) -> (r: Self)
        ensures
            r@ == self@,
    {
        let r = Self {
            program_name: clone_opt_string(&self.program_name),
            identity: self.identity,
            next_relay_address: clone_opt_string(&self.next_relay_address),
            file_name: clone_opt_string(&self.file_name),
            file_content: clone_opt_string(&self.file_content),
            start_time: self.start_time,
        };
        assert(r@ =~= self@);
        r
    }
}

/// Mathematical value of a `Packet`.
#[verifier::ext_equal]
pub ghost struct PacketV {
    pub packet_type: PacketType,
    pub protocol_info: Option<ProtocolInfoV>,
    pub data: Option<PacketDataV>,
}

/// One wire message: its kind, optional protocol metadata and optional
/// payload.
pub struct Packet {
    pub packet_type: PacketType,
    pub protocol_info: Option<ProtocolInfo>,
    pub data: Option<PacketData>,
}

pub open spec fn view_opt_pinfo(o: Option<ProtocolInfo>) -> Option<ProtocolInfoV> {
    match o {
        Some(pi) => Some(pi@),
        None => None,
    }
}

pub open spec fn view_opt_data(o: Option<PacketData>) -> Option<PacketDataV> {
    match o {
        Some(d) => Some(d@),
        None => None,
    }
}

impl View for Packet {
    type V = PacketV;

    open spec fn view(&self) -> PacketV {
        PacketV {
            packet_type: self.packet_type,
            protocol_info: view_opt_pinfo(self.protocol_info),
            data: view_opt_data(self.data),
        }
    }
}

impl Packet {
    /// A packet of the given kind with no payload, carrying the standard
    /// protocol descriptor when asked to.
    pub fn new(packet_type: PacketType, include_protoinfo: bool) -> (r: Self)
        ensures
            r@.packet_type == packet_type,
            include_protoinfo ==> r@.protocol_info == Some(
                ProtocolInfoV { version: "2.0"@, github_url: "https://github.com/Hunters8568/SRBNFS"@ },
            ),
            !include_protoinfo ==> r@.protocol_info is None,
            r@.data is None,
    {
        Self {
            packet_type,
            protocol_info: if include_protoinfo {
                Some(ProtocolInfo::new())
            } else {
                None
            },
            data: None,
        }
    }

    /// The file-broadcast packet built for a file injected at the
    /// coordinator: name, base64-encoded content, and the moment of
    /// construction in seconds since the epoch.
    pub fn new_relay_file(file_name: String, file_content: String, start_time: u64) -> (r: Self)
        ensures
            r@.packet_type == PacketType::RelayFile,
            r@.protocol_info is None,
            r@.data == Some(PacketDataV {
                program_name: None,
                identity: None,
                next_relay_address: None,
                file_name: Some(file_name@),
                file_content: Some(file_content@),
                start_time: Some(start_time),
            }),
    {
        let mut data = PacketData::empty();
        data.file_name = Some(file_name);
        data.file_content = Some(file_content);
        data.start_time = Some(start_time);
        let r = Self { packet_type: PacketType::RelayFile, protocol_info: None, data: Some(data) };
        assert(r@.data->Some_0 =~= PacketDataV {
            program_name: None,
            identity: None,
            next_relay_address: None,
            file_name: Some(file_name@),
            file_content: Some(file_content@),
            start_time: Some(start_time),
        });
        r
    }
}

impl Clone for Packet {
    fn clone(&self) -> (r: Self)
        ensures
            r@ == self@,
    {
        let r = Self {
            packet_type: self.packet_type,
            protocol_info: match &self.protocol_info {
                Some(pi) => Some(pi.clone()),
                None => None,
            },
            data: match &self.data {
                Some(d) => Some(d.clone()),
                None => None,
            },
        };
        assert(r@ =~= self@);
        r
    }
}

} // verus!
