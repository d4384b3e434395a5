//! The line codec: how one packet is written as one line of text, and how
//! such a line is read back. The grammar is a fixed-shape document: the
//! packet kind, then the protocol descriptor or `null`, then the payload
//! or `null`; inside the payload every recognized field appears in a fixed
//! order, absent ones as `null`. Reading is proved to undo writing for
//! every packet.

use crate::packet::{
    view_opt_data, view_opt_pinfo, view_opt_string, Identity, Packet, PacketData, PacketDataV,
    PacketType, PacketV, ProtocolInfo, ProtocolInfoV,
};
use crate::wire::{
    append_escaped, append_u64, dec_digits, eat_lit, eat_str_body, eat_u64, escape, take_lit,
    take_str_body, take_u64, lemma_take_lit_of_self, lemma_take_str_body_of_escape,
    lemma_take_u64_of_dec, lemma_escape_no_newline,
};
use vstd::prelude::*;
use vstd::seq_lib::lemma_concat_associative;

verus! {

// ---------------------------------------------------------------------------
// Writing
// ---------------------------------------------------------------------------
pub open spec fn spec_ptype_name(t: PacketType) -> Seq<char> {
    match t {
        PacketType::Handshake => "Handshake"@,
        PacketType::RootConfiguration => "RootConfiguration"@,
        PacketType::RelayFile => "RelayFile"@,
        PacketType::InjectFile => "InjectFile"@,
    }
}

pub open spec fn spec_identity_name(i: Identity) -> Seq<char> {
    match i {
        Identity::Unknown => "Unknown"@,
        Identity::RootServer => "RootServer"@,
        Identity::Relay => "Relay"@,
        Identity::Listener => "Listener"@,
    }
}

/// A string value: quoted, with its contents escaped.
pub open spec fn spec_quoted(s: Seq<char>) -> Seq<char> {
    seq!['"'] + escape(s) + seq!['"']
}

pub open spec fn spec_opt_str(o: Option<Seq<char>>) -> Seq<char> {
    match o {
        None => "null"@,
        Some(s) => spec_quoted(s),
    }
}

pub open spec fn spec_opt_identity(o: Option<Identity>) -> Seq<char> {
    match o {
        None => "null"@,
        Some(i) => seq!['"'] + spec_identity_name(i) + seq!['"'],
    }
}

pub open spec fn spec_opt_u64(o: Option<u64>) -> Seq<char> {
    match o {
        None => "null"@,
        Some(v) => dec_digits(v as nat),
    }
}

pub open spec fn spec_pinfo_obj(pi: ProtocolInfoV) -> Seq<char> {
    "{\"version\":"@ + spec_quoted(pi.version) + ",\"github_url\":"@ + spec_quoted(pi.github_url)
        + "}"@
}

pub open spec fn spec_opt_pinfo(o: Option<ProtocolInfoV>) -> Seq<char> {
    match o {
        None => "null"@,
        Some(pi) => spec_pinfo_obj(pi),
    }
}

pub open spec fn spec_data_obj(d: PacketDataV) -> Seq<char> {
    "{\"ProgramName\":"@ + spec_opt_str(d.program_name) + ",\"Identity\":"@ + spec_opt_identity(
        d.identity,
    ) + ",\"NextRelayAddress\":"@ + spec_opt_str(d.next_relay_address) + ",\"FileName\":"@
        + spec_opt_str(d.file_name) + ",\"FileContent\":"@ + spec_opt_str(d.file_content)
        + ",\"StartTime\":"@ + spec_opt_u64(d.start_time) + "}"@
}

pub open spec fn spec_opt_data(o: Option<PacketDataV>) -> Seq<char> {
    match o {
        None => "null"@,
        Some(d) => spec_data_obj(d),
    }
}

/// The one line a packet travels as (without its line terminator).
pub open spec fn spec_serialize(p: PacketV) -> Seq<char> {
    "{\"packet_type\":\""@ + spec_ptype_name(p.packet_type) + "\",\"protocol_info\":"@
        + spec_opt_pinfo(p.protocol_info) + ",\"data\":"@ + spec_opt_data(p.data) + "}"@
}

// ---------------------------------------------------------------------------
// Reading
// ---------------------------------------------------------------------------
/// A quoted string value at the front of `t`: its decoded contents and the
/// characters consumed, both quotes included.
pub open spec fn take_quoted(t: Seq<char>) -> Option<(Seq<char>, int)> {
    if t.len() > 0 && t[0] == '"' {
        match take_str_body(t.skip(1)) {
            None => None,
            Some((s, n)) => Some((s, n + 1)),
        }
    } else {
        None
    }
}

pub open spec fn take_opt_str(t: Seq<char>) -> Option<(Option<Seq<char>>, int)> {
    if take_lit(t, "null"@) is Some {
        Some((None, 4))
    } else {
        match take_quoted(t) {
            None => None,
            Some((s, n)) => Some((Some(s), n)),
        }
    }
}

pub open spec fn take_opt_identity(t: Seq<char>) -> Option<(Option<Identity>, int)> {
    if take_lit(t, "null"@) is Some {
        Some((None, 4))
    } else if take_lit(t, "\"Unknown\""@) is Some {
        Some((Some(Identity::Unknown), "\"Unknown\""@.len() as int))
    } else if take_lit(t, "\"RootServer\""@) is Some {
        Some((Some(Identity::RootServer), "\"RootServer\""@.len() as int))
    } else if take_lit(t, "\"Relay\""@) is Some {
        Some((Some(Identity::Relay), "\"Relay\""@.len() as int))
    } else if take_lit(t, "\"Listener\""@) is Some {
        Some((Some(Identity::Listener), "\"Listener\""@.len() as int))
    } else {
        None
    }
}

pub open spec fn take_opt_u64(t: Seq<char>) -> Option<(Option<u64>, int)> {
    if take_lit(t, "null"@) is Some {
        Some((None, 4))
    } else {
        match take_u64(t) {
            None => None,
            Some((v, n)) => Some((Some(v), n)),
        }
    }
}

pub open spec fn take_ptype(t: Seq<char>) -> Option<(PacketType, int)> {
    if take_lit(t, "Handshake\""@) is Some {
        Some((PacketType::Handshake, "Handshake\""@.len() as int))
    } else if take_lit(t, "RootConfiguration\""@) is Some {
        Some((PacketType::RootConfiguration, "RootConfiguration\""@.len() as int))
    } else if take_lit(t, "RelayFile\""@) is Some {
        Some((PacketType::RelayFile, "RelayFile\""@.len() as int))
    } else if take_lit(t, "InjectFile\""@) is Some {
        Some((PacketType::InjectFile, "InjectFile\""@.len() as int))
    } else {
        None
    }
}

pub open spec fn take_pinfo_obj(t: Seq<char>) -> Option<(ProtocolInfoV, int)> {
    match take_lit(t, "{\"version\":"@) {
        None => None,
        Some(n1) => match take_quoted(t.skip(n1)) {
            None => None,
            Some((ver, n2)) => match take_lit(t.skip(n1 + n2), ",\"github_url\":"@) {
                None => None,
                Some(n3) => match take_quoted(t.skip(n1 + n2 + n3)) {
                    None => None,
                    Some((url, n4)) => match take_lit(t.skip(n1 + n2 + n3 + n4), "}"@) {
                        None => None,
                        Some(n5) => Some(
                            (
                                ProtocolInfoV { version: ver, github_url: url },
                                n1 + n2 + n3 + n4 + n5,
                            ),
                        ),
                    },
                },
            },
        },
    }
}

pub open spec fn take_opt_pinfo(t: Seq<char>) -> Option<(Option<ProtocolInfoV>, int)> {
    if take_lit(t, "null"@) is Some {
        Some((None, 4))
    } else {
        match take_pinfo_obj(t) {
            None => None,
            Some((pi, n)) => Some((Some(pi), n)),
        }
    }
}

/// One payload field: its key (with the separator that precedes it), then
/// an optional string value.
pub open spec fn take_field_str(t: Seq<char>, key: Seq<char>) -> Option<(Option<Seq<char>>, int)> {
    match take_lit(t, key) {
        None => None,
        Some(n1) => match take_opt_str(t.skip(n1)) {
            None => None,
            Some((v, n2)) => Some((v, n1 + n2)),
        },
    }
}

pub open spec fn take_field_identity(t: Seq<char>, key: Seq<char>) -> Option<
    (Option<Identity>, int),
> {
    match take_lit(t, key) {
        None => None,
        Some(n1) => match take_opt_identity(t.skip(n1)) {
            None => None,
            Some((v, n2)) => Some((v, n1 + n2)),
        },
    }
}

pub open spec fn take_field_u64(t: Seq<char>, key: Seq<char>) -> Option<(Option<u64>, int)> {
    match take_lit(t, key) {
        None => None,
        Some(n1) => match take_opt_u64(t.skip(n1)) {
            None => None,
            Some((v, n2)) => Some((v, n1 + n2)),
        },
    }
}

pub open spec fn take_data_obj(t: Seq<char>) -> Option<(PacketDataV, int)> {
    match take_field_str(t, "{\"ProgramName\":"@) {
        None => None,
        Some((pn, m1)) => match take_field_identity(t.skip(m1), ",\"Identity\":"@) {
            None => None,
            Some((id, m2)) => match take_field_str(t.skip(m1 + m2), ",\"NextRelayAddress\":"@) {
                None => None,
                Some((nra, m3)) => match take_field_str(t.skip(m1 + m2 + m3), ",\"FileName\":"@) {
                    None => None,
                    Some((fnm, m4)) => match take_field_str(
                        t.skip(m1 + m2 + m3 + m4),
                        ",\"FileContent\":"@,
                    ) {
                        None => None,
                        Some((fc, m5)) => match take_field_u64(
                            t.skip(m1 + m2 + m3 + m4 + m5),
                            ",\"StartTime\":"@,
                        ) {
                            None => None,
                            Some((st, m6)) => match take_lit(
                                t.skip(m1 + m2 + m3 + m4 + m5 + m6),
                                "}"@,
                            ) {
                                None => None,
                                Some(m7) => Some(
                                    (
                                        PacketDataV {
                                            program_name: pn,
                                            identity: id,
                                            next_relay_address: nra,
                                            file_name: fnm,
                                            file_content: fc,
                                            start_time: st,
                                        },
                                        m1 + m2 + m3 + m4 + m5 + m6 + m7,
                                    ),
                                ),
                            },
                        },
                    },
                },
            },
        },
    }
}

pub open spec fn take_opt_data(t: Seq<char>) -> Option<(Option<PacketDataV>, int)> {
    if take_lit(t, "null"@) is Some {
        Some((None, 4))
    } else {
        match take_data_obj(t) {
            None => None,
            Some((d, n)) => Some((Some(d), n)),
        }
    }
}

/// The head of a packet: the opening literal and the kind, closing quote
/// included.
pub open spec fn take_packet_head(t: Seq<char>) -> Option<(PacketType, int)> {
    match take_lit(t, "{\"packet_type\":\""@) {
        None => None,
        Some(n1) => match take_ptype(t.skip(n1)) {
            None => None,
            Some((pt, n2)) => Some((pt, n1 + n2)),
        },
    }
}

pub open spec fn take_pinfo_field(t: Seq<char>) -> Option<(Option<ProtocolInfoV>, int)> {
    match take_lit(t, ",\"protocol_info\":"@) {
        None => None,
        Some(n1) => match take_opt_pinfo(t.skip(n1)) {
            None => None,
            Some((pi, n2)) => Some((pi, n1 + n2)),
        },
    }
}

pub open spec fn take_data_field(t: Seq<char>) -> Option<(Option<PacketDataV>, int)> {
    match take_lit(t, ",\"data\":"@) {
        None => None,
        Some(n1) => match take_opt_data(t.skip(n1)) {
            None => None,
            Some((d, n2)) => Some((d, n1 + n2)),
        },
    }
}

pub open spec fn take_packet(t: Seq<char>) -> Option<(PacketV, int)> {
    match take_packet_head(t) {
        None => None,
        Some((pt, m1)) => match take_pinfo_field(t.skip(m1)) {
            None => None,
            Some((pi, m2)) => match take_data_field(t.skip(m1 + m2)) {
                None => None,
                Some((d, m3)) => match take_lit(t.skip(m1 + m2 + m3), "}"@) {
                    None => None,
                    Some(m4) => Some(
                        (
                            PacketV { packet_type: pt, protocol_info: pi, data: d },
                            m1 + m2 + m3 + m4,
                        ),
                    ),
                },
            },
        },
    }
}

/// What a full line means: a packet, provided the document fills the line
/// exactly.
pub open spec fn spec_parse_packet(line: Seq<char>) -> Option<PacketV> {
    match take_packet(line) {
        None => None,
        Some((p, n)) => if n == line.len() {
            Some(p)
        } else {
            None
        },
    }
}

// ---------------------------------------------------------------------------
// Reading undoes writing
// ---------------------------------------------------------------------------
/// A literal fails to match where one of its characters differs.
proof fn lemma_take_lit_mismatch(t: Seq<char>, lit: Seq<char>, k: int)
    requires
        0 <= k < lit.len(),
        lit.len() <= t.len() ==> t[k] != lit[k],
    ensures
        take_lit(t, lit) is None,
{
    if lit.len() <= t.len() {
        assert(t.take(lit.len() as int)[k] == t[k]);
        assert(t.take(lit.len() as int) != lit);
    }
}

proof fn lemma_rt_quoted(s: Seq<char>, rest: Seq<char>)
    ensures
        take_quoted(spec_quoted(s) + rest) == Some((s, spec_quoted(s).len() as int)),
        spec_quoted(s).len() >= 2,
        (spec_quoted(s) + rest)[0] == '"',
{
    let t = spec_quoted(s) + rest;
    assert(t[0] == '"');
    assert(t.skip(1) =~= escape(s) + seq!['"'] + rest);
    lemma_take_str_body_of_escape(s, rest);
    assert(spec_quoted(s).len() == escape(s).len() + 2);
}

proof fn lemma_rt_opt_str(o: Option<Seq<char>>, rest: Seq<char>)
    ensures
        take_opt_str(spec_opt_str(o) + rest) == Some((o, spec_opt_str(o).len() as int)),
{
    reveal_strlit("null");
    let t = spec_opt_str(o) + rest;
    match o {
        None => {
            lemma_take_lit_of_self("null"@, rest);
        },
        Some(s) => {
            lemma_rt_quoted(s, rest);
            lemma_take_lit_mismatch(t, "null"@, 0);
        },
    }
}

proof fn lemma_rt_opt_identity(o: Option<Identity>, rest: Seq<char>)
    ensures
        take_opt_identity(spec_opt_identity(o) + rest) == Some(
            (o, spec_opt_identity(o).len() as int),
        ),
{
    reveal_strlit("null");
    reveal_strlit("Unknown");
    reveal_strlit("RootServer");
    reveal_strlit("Relay");
    reveal_strlit("Listener");
    reveal_strlit("\"Unknown\"");
    reveal_strlit("\"RootServer\"");
    reveal_strlit("\"Relay\"");
    reveal_strlit("\"Listener\"");
    let t = spec_opt_identity(o) + rest;
    match o {
        None => {
            lemma_take_lit_of_self("null"@, rest);
        },
        Some(i) => {
            assert(t[0] == '"');
            lemma_take_lit_mismatch(t, "null"@, 0);
            match i {
                Identity::Unknown => {
                    assert(t =~= "\"Unknown\""@ + rest);
                    lemma_take_lit_of_self("\"Unknown\""@, rest);
                },
                Identity::RootServer => {
                    assert(t =~= "\"RootServer\""@ + rest);
                    lemma_take_lit_mismatch(t, "\"Unknown\""@, 1);
                    lemma_take_lit_of_self("\"RootServer\""@, rest);
                },
                Identity::Relay => {
                    assert(t =~= "\"Relay\""@ + rest);
                    lemma_take_lit_mismatch(t, "\"Unknown\""@, 1);
                    lemma_take_lit_mismatch(t, "\"RootServer\""@, 2);
                    lemma_take_lit_of_self("\"Relay\""@, rest);
                },
                Identity::Listener => {
                    assert(t =~= "\"Listener\""@ + rest);
                    lemma_take_lit_mismatch(t, "\"Unknown\""@, 1);
                    lemma_take_lit_mismatch(t, "\"RootServer\""@, 1);
                    lemma_take_lit_mismatch(t, "\"Relay\""@, 1);
                    lemma_take_lit_of_self("\"Listener\""@, rest);
                },
            }
        },
    }
}

proof fn lemma_rt_opt_u64(o: Option<u64>, rest: Seq<char>)
    requires
        rest.len() > 0,
        !crate::wire::is_digit(rest[0]),
    ensures
        take_opt_u64(spec_opt_u64(o) + rest) == Some((o, spec_opt_u64(o).len() as int)),
{
    reveal_strlit("null");
    let t = spec_opt_u64(o) + rest;
    match o {
        None => {
            lemma_take_lit_of_self("null"@, rest);
        },
        Some(v) => {
            crate::wire::lemma_dec_digits_wf(v as nat);
            assert(t[0] == dec_digits(v as nat)[0]);
            assert(crate::wire::is_digit(t[0]));
            lemma_take_lit_mismatch(t, "null"@, 0);
            lemma_take_u64_of_dec(v, rest);
        },
    }
}

proof fn lemma_rt_opt_pinfo(o: Option<ProtocolInfoV>, rest: Seq<char>)
    ensures
        take_opt_pinfo(spec_opt_pinfo(o) + rest) == Some((o, spec_opt_pinfo(o).len() as int)),
{
    reveal_strlit("null");
    reveal_strlit("{\"version\":");
    reveal_strlit(",\"github_url\":");
    reveal_strlit("}");
    let t = spec_opt_pinfo(o) + rest;
    match o {
        None => {
            lemma_take_lit_of_self("null"@, rest);
        },
        Some(pi) => {
            let l1 = "{\"version\":"@;
            let l2 = ",\"github_url\":"@;
            let l3 = "}"@;
            let q1 = spec_quoted(pi.version);
            let q2 = spec_quoted(pi.github_url);
            let r1 = q1 + (l2 + (q2 + (l3 + rest)));
            let r2 = l2 + (q2 + (l3 + rest));
            let r3 = q2 + (l3 + rest);
            let r4 = l3 + rest;
            assert(t[0] == '{');
            lemma_take_lit_mismatch(t, "null"@, 0);
            assert(t =~= l1 + r1);
            lemma_take_lit_of_self(l1, r1);
            lemma_rt_quoted(pi.version, r2);
            assert(q1 + r2 =~= r1);
            lemma_take_lit_of_self(l2, r3);
            assert(l2 + r3 =~= r2);
            lemma_rt_quoted(pi.github_url, r4);
            assert(q2 + r4 =~= r3);
            lemma_take_lit_of_self(l3, rest);
            let n1 = l1.len() as int;
            let n2 = q1.len() as int;
            let n3 = l2.len() as int;
            let n4 = q2.len() as int;
            assert(t.skip(n1) =~= r1);
            assert(t.skip(n1 + n2) =~= r2);
            assert(t.skip(n1 + n2 + n3) =~= r3);
            assert(t.skip(n1 + n2 + n3 + n4) =~= r4);
            assert(take_pinfo_obj(t) == Some((pi, spec_pinfo_obj(pi).len() as int)));
        },
    }
}

/// Reading one field undoes writing it, for each kind of value.
proof fn lemma_rt_field_str(key: Seq<char>, o: Option<Seq<char>>, rest: Seq<char>)
    ensures
        take_field_str(key + spec_opt_str(o) + rest, key) == Some(
            (o, key.len() + spec_opt_str(o).len() as int),
        ),
        (key + spec_opt_str(o) + rest).skip(key.len() + spec_opt_str(o).len() as int) == rest,
{
    let t = key + spec_opt_str(o) + rest;
    assert(t =~= key + (spec_opt_str(o) + rest));
    lemma_take_lit_of_self(key, spec_opt_str(o) + rest);
    lemma_rt_opt_str(o, rest);
    assert((spec_opt_str(o) + rest).skip(spec_opt_str(o).len() as int) =~= rest);
    assert(t.skip(key.len() + spec_opt_str(o).len() as int) =~= rest);
}

proof fn lemma_rt_field_identity(key: Seq<char>, o: Option<Identity>, rest: Seq<char>)
    ensures
        take_field_identity(key + spec_opt_identity(o) + rest, key) == Some(
            (o, key.len() + spec_opt_identity(o).len() as int),
        ),
        (key + spec_opt_identity(o) + rest).skip(
            key.len() + spec_opt_identity(o).len() as int,
        ) == rest,
{
    let t = key + spec_opt_identity(o) + rest;
    assert(t =~= key + (spec_opt_identity(o) + rest));
    lemma_take_lit_of_self(key, spec_opt_identity(o) + rest);
    lemma_rt_opt_identity(o, rest);
    assert((spec_opt_identity(o) + rest).skip(spec_opt_identity(o).len() as int) =~= rest);
    assert(t.skip(key.len() + spec_opt_identity(o).len() as int) =~= rest);
}

proof fn lemma_rt_field_u64(key: Seq<char>, o: Option<u64>, rest: Seq<char>)
    requires
        rest.len() > 0,
        !crate::wire::is_digit(rest[0]),
    ensures
        take_field_u64(key + spec_opt_u64(o) + rest, key) == Some(
            (o, key.len() + spec_opt_u64(o).len() as int),
        ),
        (key + spec_opt_u64(o) + rest).skip(key.len() + spec_opt_u64(o).len() as int) == rest,
{
    let t = key + spec_opt_u64(o) + rest;
    assert(t =~= key + (spec_opt_u64(o) + rest));
    lemma_take_lit_of_self(key, spec_opt_u64(o) + rest);
    lemma_rt_opt_u64(o, rest);
    assert((spec_opt_u64(o) + rest).skip(spec_opt_u64(o).len() as int) =~= rest);
    assert(t.skip(key.len() + spec_opt_u64(o).len() as int) =~= rest);
}

#[verifier::rlimit(100)]
#[verifier::spinoff_prover]
proof fn lemma_rt_data_obj(d: PacketDataV, rest: Seq<char>)
    ensures
        take_data_obj(spec_data_obj(d) + rest) == Some((d, spec_data_obj(d).len() as int)),
{
    let l1 = "{\"ProgramName\":"@;
    let l2 = ",\"Identity\":"@;
    let l3 = ",\"NextRelayAddress\":"@;
    let l4 = ",\"FileName\":"@;
    let l5 = ",\"FileContent\":"@;
    let l6 = ",\"StartTime\":"@;
    let l7 = "}"@;
    let v1 = spec_opt_str(d.program_name);
    let v2 = spec_opt_identity(d.identity);
    let v3 = spec_opt_str(d.next_relay_address);
    let v4 = spec_opt_str(d.file_name);
    let v5 = spec_opt_str(d.file_content);
    let v6 = spec_opt_u64(d.start_time);
    // the definition of the payload text, spelled out along its spine
    let p1 = l1 + v1;
    let p2 = p1 + l2;
    let p3 = p2 + v2;
    let p4 = p3 + l3;
    let p5 = p4 + v3;
    let p6 = p5 + l4;
    let p7 = p6 + v4;
    let p8 = p7 + l5;
    let p9 = p8 + v5;
    let p10 = p9 + l6;
    let p11 = p10 + v6;
    let p12 = p11 + l7;
    assert(spec_data_obj(d) == p12);
    let t = p12 + rest;
    // regroup the text so that each field stands at the front of its suffix
    let r7 = l7 + rest;
    let r6 = l6 + v6 + r7;
    let r5 = l5 + v5 + r6;
    let r4 = l4 + v4 + r5;
    let r3 = l3 + v3 + r4;
    let r2 = l2 + v2 + r3;
    lemma_concat_associative(p11, l7, rest);
    lemma_concat_associative(p10, v6, r7);
    lemma_concat_associative(p9, l6, v6 + r7);
    lemma_concat_associative(l6, v6, r7);
    assert(r6 == l6 + (v6 + r7));
    assert(t == p9 + r6);
    lemma_concat_associative(p8, v5, r6);
    lemma_concat_associative(p7, l5, v5 + r6);
    lemma_concat_associative(l5, v5, r6);
    assert(t == p7 + r5);
    lemma_concat_associative(p6, v4, r5);
    lemma_concat_associative(p5, l4, v4 + r5);
    lemma_concat_associative(l4, v4, r5);
    assert(t == p5 + r4);
    lemma_concat_associative(p4, v3, r4);
    lemma_concat_associative(p3, l3, v3 + r4);
    lemma_concat_associative(l3, v3, r4);
    assert(t == p3 + r3);
    lemma_concat_associative(p2, v2, r3);
    lemma_concat_associative(p1, l2, v2 + r3);
    lemma_concat_associative(l2, v2, r3);
    assert(t == p1 + r2);
    lemma_concat_associative(l1, v1, r2);
    assert(t == l1 + v1 + r2);
    // read the fields back, one after the other
    let m1 = l1.len() + v1.len() as int;
    let m2 = l2.len() + v2.len() as int;
    let m3 = l3.len() + v3.len() as int;
    let m4 = l4.len() + v4.len() as int;
    let m5 = l5.len() + v5.len() as int;
    let m6 = l6.len() + v6.len() as int;
    lemma_rt_field_str(l1, d.program_name, r2);
    assert(take_field_str(t, l1) == Some((d.program_name, m1)));
    assert(t.skip(m1) == r2);
    lemma_rt_field_identity(l2, d.identity, r3);
    assert(t.skip(m1).skip(m2) =~= t.skip(m1 + m2));
    assert(t.skip(m1 + m2) == r3);
    lemma_rt_field_str(l3, d.next_relay_address, r4);
    assert(t.skip(m1 + m2).skip(m3) =~= t.skip(m1 + m2 + m3));
    assert(t.skip(m1 + m2 + m3) == r4);
    lemma_rt_field_str(l4, d.file_name, r5);
    assert(t.skip(m1 + m2 + m3).skip(m4) =~= t.skip(m1 + m2 + m3 + m4));
    assert(t.skip(m1 + m2 + m3 + m4) == r5);
    lemma_rt_field_str(l5, d.file_content, r6);
    assert(t.skip(m1 + m2 + m3 + m4).skip(m5) =~= t.skip(m1 + m2 + m3 + m4 + m5));
    assert(t.skip(m1 + m2 + m3 + m4 + m5) == r6);
    reveal_strlit("}");
    assert(r7[0] == '}');
    assert(!crate::wire::is_digit(r7[0]));
    lemma_rt_field_u64(l6, d.start_time, r7);
    assert(t.skip(m1 + m2 + m3 + m4 + m5).skip(m6) =~= t.skip(m1 + m2 + m3 + m4 + m5 + m6));
    assert(t.skip(m1 + m2 + m3 + m4 + m5 + m6) == r7);
    lemma_take_lit_of_self(l7, rest);
    assert(take_data_obj(t) == Some((d, m1 + m2 + m3 + m4 + m5 + m6 + l7.len())));
    assert(spec_data_obj(d).len() == m1 + m2 + m3 + m4 + m5 + m6 + l7.len());
}

proof fn lemma_rt_opt_data(o: Option<PacketDataV>, rest: Seq<char>)
    ensures
        take_opt_data(spec_opt_data(o) + rest) == Some((o, spec_opt_data(o).len() as int)),
{
    reveal_strlit("null");
    let t = spec_opt_data(o) + rest;
    match o {
        None => {
            lemma_take_lit_of_self("null"@, rest);
        },
        Some(d) => {
            reveal_strlit("{\"ProgramName\":");
            assert(t[0] == '{');
            lemma_take_lit_mismatch(t, "null"@, 0);
            lemma_rt_data_obj(d, rest);
        },
    }
}

/// The packet kind, with its closing quote, reads back as itself.
proof fn lemma_rt_ptype(pt: PacketType, rest: Seq<char>)
    ensures
        take_ptype((spec_ptype_name(pt) + seq!['"']) + rest) == Some(
            (pt, spec_ptype_name(pt).len() as int + 1),
        ),
{
    reveal_strlit("Handshake");
    reveal_strlit("RootConfiguration");
    reveal_strlit("RelayFile");
    reveal_strlit("InjectFile");
    reveal_strlit("Handshake\"");
    reveal_strlit("RootConfiguration\"");
    reveal_strlit("RelayFile\"");
    reveal_strlit("InjectFile\"");
    let t = (spec_ptype_name(pt) + seq!['"']) + rest;
    match pt {
        PacketType::Handshake => {
            assert(t =~= "Handshake\""@ + rest);
            lemma_take_lit_of_self("Handshake\""@, rest);
        },
        PacketType::RootConfiguration => {
            assert(t =~= "RootConfiguration\""@ + rest);
            lemma_take_lit_mismatch(t, "Handshake\""@, 0);
            lemma_take_lit_of_self("RootConfiguration\""@, rest);
        },
        PacketType::RelayFile => {
            assert(t =~= "RelayFile\""@ + rest);
            lemma_take_lit_mismatch(t, "Handshake\""@, 0);
            lemma_take_lit_mismatch(t, "RootConfiguration\""@, 1);
            lemma_take_lit_of_self("RelayFile\""@, rest);
        },
        PacketType::InjectFile => {
            assert(t =~= "InjectFile\""@ + rest);
            lemma_take_lit_mismatch(t, "Handshake\""@, 0);
            lemma_take_lit_mismatch(t, "RootConfiguration\""@, 0);
            lemma_take_lit_mismatch(t, "RelayFile\""@, 0);
            lemma_take_lit_of_self("InjectFile\""@, rest);
        },
    }
}

#[verifier::rlimit(60)]
#[verifier::spinoff_prover]
proof fn lemma_rt_packet(p: PacketV, rest: Seq<char>)
    ensures
        take_packet(spec_serialize(p) + rest) == Some((p, spec_serialize(p).len() as int)),
{
    let l1 = "{\"packet_type\":\""@;
    let lq = "\",\"protocol_info\":"@;
    let l2 = ",\"protocol_info\":"@;
    let l3 = ",\"data\":"@;
    let l4 = "}"@;
    let ty = spec_ptype_name(p.packet_type);
    let tyq = ty + seq!['"'];
    let v2 = spec_opt_pinfo(p.protocol_info);
    let v3 = spec_opt_data(p.data);
    reveal_strlit("\",\"protocol_info\":");
    reveal_strlit(",\"protocol_info\":");
    assert(lq =~= seq!['"'] + l2);
    // the definition of the line, spelled out along its spine
    let p1 = l1 + ty;
    let p2 = p1 + lq;
    let p3 = p2 + v2;
    let p4 = p3 + l3;
    let p5 = p4 + v3;
    let p6 = p5 + l4;
    assert(spec_serialize(p) == p6);
    let t = p6 + rest;
    // regroup so that each piece stands at the front of its suffix
    let r4 = l4 + rest;
    let r3 = l3 + v3 + r4;
    let r2 = l2 + v2 + r3;
    lemma_concat_associative(p5, l4, rest);
    lemma_concat_associative(p4, v3, r4);
    lemma_concat_associative(p3, l3, v3 + r4);
    lemma_concat_associative(l3, v3, r4);
    assert(t == p3 + r3);
    lemma_concat_associative(p2, v2, r3);
    lemma_concat_associative(p1, lq, v2 + r3);
    lemma_concat_associative(seq!['"'], l2, v2 + r3);
    lemma_concat_associative(l2, v2, r3);
    assert(lq + (v2 + r3) == seq!['"'] + r2);
    assert(t == p1 + (seq!['"'] + r2));
    lemma_concat_associative(l1, ty, seq!['"'] + r2);
    lemma_concat_associative(ty, seq!['"'], r2);
    assert(t == l1 + (tyq + r2));
    // the head
    lemma_take_lit_of_self(l1, tyq + r2);
    lemma_rt_ptype(p.packet_type, r2);
    lemma_concat_associative(l1, tyq, r2);
    let m1 = l1.len() + tyq.len() as int;
    assert((tyq + r2).skip(tyq.len() as int) =~= r2);
    assert(take_packet_head(t) == Some((p.packet_type, m1)));
    assert((l1 + tyq + r2).skip(m1) =~= r2);
    assert(t.skip(m1) == r2);
    // the protocol descriptor
    let m2 = l2.len() + v2.len() as int;
    lemma_take_lit_of_self(l2, v2 + r3);
    lemma_rt_opt_pinfo(p.protocol_info, r3);
    assert((v2 + r3).skip(v2.len() as int) =~= r3);
    assert(take_pinfo_field(r2) == Some((p.protocol_info, m2)));
    assert((l2 + v2 + r3).skip(m2) =~= r3);
    assert(t.skip(m1).skip(m2) =~= t.skip(m1 + m2));
    assert(t.skip(m1 + m2) == r3);
    // the payload
    let m3 = l3.len() + v3.len() as int;
    lemma_take_lit_of_self(l3, v3 + r4);
    lemma_rt_opt_data(p.data, r4);
    assert((v3 + r4).skip(v3.len() as int) =~= r4);
    assert(take_data_field(r3) == Some((p.data, m3)));
    assert((l3 + v3 + r4).skip(m3) =~= r4);
    assert(t.skip(m1 + m2).skip(m3) =~= t.skip(m1 + m2 + m3));
    assert(t.skip(m1 + m2 + m3) == r4);
    // the closing brace
    lemma_take_lit_of_self(l4, rest);
    assert(take_packet(t) == Some((p, m1 + m2 + m3 + l4.len())));
    assert(spec_serialize(p).len() == m1 + m2 + m3 + l4.len());
}

/// Parsing undoes serialization: every packet value, in every variant and
/// with every combination of absent fields, comes back equal from its own
/// line of text.
pub proof fn lemma_serialize_parse_round_trip(p: PacketV)
    ensures
        spec_parse_packet(spec_serialize(p)) == Some(p),
{
    lemma_rt_packet(p, Seq::<char>::empty());
    assert(spec_serialize(p) + Seq::<char>::empty() =~= spec_serialize(p));
}

/// A serialized packet never contains a newline: one packet stays one line,
/// whatever its fields hold.
pub proof fn lemma_serialized_packet_single_line(p: PacketV)
    ensures
        forall|i: int|
            0 <= i < spec_serialize(p).len() ==> #[trigger] spec_serialize(p)[i] != '\n',
{
    reveal_strlit("{\"packet_type\":\"");
    reveal_strlit("\",\"protocol_info\":");
    reveal_strlit(",\"data\":");
    reveal_strlit("}");
    reveal_strlit("null");
    reveal_strlit("Handshake");
    reveal_strlit("RootConfiguration");
    reveal_strlit("RelayFile");
    reveal_strlit("InjectFile");
    reveal_strlit("Unknown");
    reveal_strlit("RootServer");
    reveal_strlit("Relay");
    reveal_strlit("Listener");
    reveal_strlit("{\"version\":");
    reveal_strlit(",\"github_url\":");
    reveal_strlit("{\"ProgramName\":");
    reveal_strlit(",\"Identity\":");
    reveal_strlit(",\"NextRelayAddress\":");
    reveal_strlit(",\"FileName\":");
    reveal_strlit(",\"FileContent\":");
    reveal_strlit(",\"StartTime\":");
    lemma_no_newline_opt_pinfo(p.protocol_info);
    lemma_no_newline_opt_data(p.data);
}

proof fn lemma_no_newline_quoted(s: Seq<char>)
    ensures
        forall|i: int| 0 <= i < spec_quoted(s).len() ==> #[trigger] spec_quoted(s)[i] != '\n',
{
    lemma_escape_no_newline(s);
}

proof fn lemma_no_newline_opt_str(o: Option<Seq<char>>)
    ensures
        forall|i: int| 0 <= i < spec_opt_str(o).len() ==> #[trigger] spec_opt_str(o)[i] != '\n',
{
    reveal_strlit("null");
    match o {
        None => {},
        Some(s) => {
            lemma_no_newline_quoted(s);
        },
    }
}

proof fn lemma_no_newline_opt_pinfo(o: Option<ProtocolInfoV>)
    ensures
        forall|i: int|
            0 <= i < spec_opt_pinfo(o).len() ==> #[trigger] spec_opt_pinfo(o)[i] != '\n',
{
    reveal_strlit("null");
    reveal_strlit("{\"version\":");
    reveal_strlit(",\"github_url\":");
    reveal_strlit("}");
    match o {
        None => {},
        Some(pi) => {
            lemma_no_newline_quoted(pi.version);
            lemma_no_newline_quoted(pi.github_url);
        },
    }
}

proof fn lemma_no_newline_opt_data(o: Option<PacketDataV>)
    ensures
        forall|i: int| 0 <= i < spec_opt_data(o).len() ==> #[trigger] spec_opt_data(o)[i] != '\n',
{
    reveal_strlit("null");
    reveal_strlit("{\"ProgramName\":");
    reveal_strlit(",\"Identity\":");
    reveal_strlit(",\"NextRelayAddress\":");
    reveal_strlit(",\"FileName\":");
    reveal_strlit(",\"FileContent\":");
    reveal_strlit(",\"StartTime\":");
    reveal_strlit("}");
    reveal_strlit("Unknown");
    reveal_strlit("RootServer");
    reveal_strlit("Relay");
    reveal_strlit("Listener");
    match o {
        None => {},
        Some(d) => {
            lemma_no_newline_opt_str(d.program_name);
            lemma_no_newline_opt_str(d.next_relay_address);
            lemma_no_newline_opt_str(d.file_name);
            lemma_no_newline_opt_str(d.file_content);
            match d.start_time {
                None => {},
                Some(v) => {
                    crate::wire::lemma_dec_digits_wf(v as nat);
                },
            }
        },
    }
}


// ---------------------------------------------------------------------------
// The executable writer
// ---------------------------------------------------------------------------
fn append_quoted(out: &mut String, s: &str)
    ensures
        final(out)@ == old(out)@ + spec_quoted(s@),
{
    out.append("\"");
    append_escaped(out, s);
    out.append("\"");
    proof {
        reveal_strlit("\"");
        assert("\""@ =~= seq!['"']);
        assert(out@ =~= old(out)@ + spec_quoted(s@));
    }
}

fn append_opt_str(out: &mut String, o: &Option<String>)
    ensures
        final(out)@ == old(out)@ + spec_opt_str(view_opt_string(*o)),
{
    match o {
        None => {
            out.append("null");
        },
        Some(s) => {
            append_quoted(out, s.as_str());
        },
    }
}

fn append_opt_identity(out: &mut String, o: &Option<Identity>)
    ensures
        final(out)@ == old(out)@ + spec_opt_identity(*o),
{
    match o {
        None => {
            out.append("null");
        },
        Some(i) => {
            match i {
                Identity::Unknown => {
                    out.append("\"Unknown\"");
                    proof {
                        reveal_strlit("\"Unknown\"");
                        reveal_strlit("Unknown");
                        assert("\"Unknown\""@ =~= spec_opt_identity(Some(Identity::Unknown)));
                    }
                },
                Identity::RootServer => {
                    out.append("\"RootServer\"");
                    proof {
                        reveal_strlit("\"RootServer\"");
                        reveal_strlit("RootServer");
                        assert("\"RootServer\""@ =~= spec_opt_identity(
                            Some(Identity::RootServer),
                        ));
                    }
                },
                Identity::Relay => {
                    out.append("\"Relay\"");
                    proof {
                        reveal_strlit("\"Relay\"");
                        reveal_strlit("Relay");
                        assert("\"Relay\""@ =~= spec_opt_identity(Some(Identity::Relay)));
                    }
                },
                Identity::Listener => {
                    out.append("\"Listener\"");
                    proof {
                        reveal_strlit("\"Listener\"");
                        reveal_strlit("Listener");
                        assert("\"Listener\""@ =~= spec_opt_identity(Some(Identity::Listener)));
                    }
                },
            }
        },
    }
}

fn append_opt_u64(out: &mut String, o: &Option<u64>)
    ensures
        final(out)@ == old(out)@ + spec_opt_u64(*o),
{
    match o {
        None => {
            out.append("null");
        },
        Some(v) => {
            append_u64(out, *v);
        },
    }
}

fn append_opt_pinfo(out: &mut String, o: &Option<ProtocolInfo>)
    ensures
        final(out)@ == old(out)@ + spec_opt_pinfo(view_opt_pinfo(*o)),
{
    match o {
        None => {
            out.append("null");
        },
        Some(pi) => {
            out.append("{\"version\":");
            append_quoted(out, pi.version.as_str());
            out.append(",\"github_url\":");
            append_quoted(out, pi.github_url.as_str());
            out.append("}");
            proof {
                assert(out@ =~= old(out)@ + spec_pinfo_obj(pi@));
            }
        },
    }
}

#[verifier::rlimit(100)]
#[verifier::spinoff_prover]
fn append_opt_data(out: &mut String, o: &Option<PacketData>)
    ensures
        final(out)@ == old(out)@ + spec_opt_data(view_opt_data(*o)),
{
    match o {
        None => {
            out.append("null");
        },
        Some(d) => {
            out.append("{\"ProgramName\":");
            append_opt_str(out, &d.program_name);
            out.append(",\"Identity\":");
            append_opt_identity(out, &d.identity);
            out.append(",\"NextRelayAddress\":");
            append_opt_str(out, &d.next_relay_address);
            out.append(",\"FileName\":");
            append_opt_str(out, &d.file_name);
            out.append(",\"FileContent\":");
            append_opt_str(out, &d.file_content);
            out.append(",\"StartTime\":");
            append_opt_u64(out, &d.start_time);
            out.append("}");
            proof {
                assert(out@ =~= old(out)@ + spec_data_obj(d@));
            }
        },
    }
}

/// Write a packet as its one line of text (without a line terminator).
/// The text never contains a newline, whatever the packet's fields hold,
/// so appending one terminator always frames exactly one packet per line.
pub fn serialize_packet(p: &Packet) -> (r: String)
    ensures
        r@ == spec_serialize(p@),
        forall|i: int| 0 <= i < r@.len() ==> r@[i] != '\n',
{
    let mut out = String::new();
    out.append("{\"packet_type\":\"");
    match p.packet_type {
        PacketType::Handshake => out.append("Handshake"),
        PacketType::RootConfiguration => out.append("RootConfiguration"),
        PacketType::RelayFile => out.append("RelayFile"),
        PacketType::InjectFile => out.append("InjectFile"),
    }
    out.append("\",\"protocol_info\":");
    append_opt_pinfo(&mut out, &p.protocol_info);
    out.append(",\"data\":");
    append_opt_data(&mut out, &p.data);
    out.append("}");
    proof {
        assert(out@ =~= spec_serialize(p@));
        lemma_serialized_packet_single_line(p@);
    }
    out
}

// ---------------------------------------------------------------------------
// The executable reader
// ---------------------------------------------------------------------------
fn eat_quoted(s: &str, n: usize, i: usize) -> (r: Option<(String, usize)>)
    requires
        n == s@.len(),
        i <= n,
    ensures
        match r {
            Some(p) => i <= p.1 <= n && take_quoted(s@.skip(i as int)) == Some(
                (p.0@, p.1 - i as int),
            ),
            None => take_quoted(s@.skip(i as int)) is None,
        },
{
    if i >= n {
        return None;
    }
    let c = s.get_char(i);
    proof {
        assert(s@.skip(i as int)[0] == c);
    }
    if c != '"' {
        return None;
    }
    proof {
        assert(s@.skip(i as int).skip(1) =~= s@.skip(i + 1));
    }
    match eat_str_body(s, n, i + 1) {
        None => None,
        Some((body, j)) => Some((body, j)),
    }
}

fn eat_null(s: &str, n: usize, i: usize) -> (r: Option<usize>)
    requires
        n == s@.len(),
        i <= n,
    ensures
        match r {
            Some(j) => j == i + 4 && take_lit(s@.skip(i as int), "null"@) == Some(4int),
            None => take_lit(s@.skip(i as int), "null"@) is None,
        },
{
    proof {
        reveal_strlit("null");
    }
    let ln = "null".unicode_len();
    eat_lit(s, n, i, "null", ln)
}

fn eat_opt_str(s: &str, n: usize, i: usize) -> (r: Option<(Option<String>, usize)>)
    requires
        n == s@.len(),
        i <= n,
    ensures
        match r {
            Some(p) => i <= p.1 <= n && take_opt_str(s@.skip(i as int)) == Some(
                (view_opt_string(p.0), p.1 - i as int),
            ),
            None => take_opt_str(s@.skip(i as int)) is None,
        },
{
    match eat_null(s, n, i) {
        Some(j) => Some((None, j)),
        None => match eat_quoted(s, n, i) {
            None => None,
            Some((body, j)) => Some((Some(body), j)),
        },
    }
}

fn eat_opt_identity(s: &str, n: usize, i: usize) -> (r: Option<(Option<Identity>, usize)>)
    requires
        n == s@.len(),
        i <= n,
    ensures
        match r {
            Some(p) => i <= p.1 <= n && take_opt_identity(s@.skip(i as int)) == Some(
                (p.0, p.1 - i as int),
            ),
            None => take_opt_identity(s@.skip(i as int)) is None,
        },
{
    if let Some(j) = eat_null(s, n, i) {
        return Some((None, j));
    }
    let ln = "\"Unknown\"".unicode_len();
    if let Some(j) = eat_lit(s, n, i, "\"Unknown\"", ln) {
        return Some((Some(Identity::Unknown), j));
    }
    let ln = "\"RootServer\"".unicode_len();
    if let Some(j) = eat_lit(s, n, i, "\"RootServer\"", ln) {
        return Some((Some(Identity::RootServer), j));
    }
    let ln = "\"Relay\"".unicode_len();
    if let Some(j) = eat_lit(s, n, i, "\"Relay\"", ln) {
        return Some((Some(Identity::Relay), j));
    }
    let ln = "\"Listener\"".unicode_len();
    if let Some(j) = eat_lit(s, n, i, "\"Listener\"", ln) {
        return Some((Some(Identity::Listener), j));
    }
    None
}

fn eat_opt_u64(s: &str, n: usize, i: usize) -> (r: Option<(Option<u64>, usize)>)
    requires
        n == s@.len(),
        i <= n,
    ensures
        match r {
            Some(p) => i <= p.1 <= n && take_opt_u64(s@.skip(i as int)) == Some(
                (p.0, p.1 - i as int),
            ),
            None => take_opt_u64(s@.skip(i as int)) is None,
        },
{
    match eat_null(s, n, i) {
        Some(j) => Some((None, j)),
        None => match eat_u64(s, n, i) {
            None => None,
            Some((v, j)) => Some((Some(v), j)),
        },
    }
}

fn eat_opt_pinfo(s: &str, n: usize, i: usize) -> (r: Option<(Option<ProtocolInfo>, usize)>)
    requires
        n == s@.len(),
        i <= n,
    ensures
        match r {
            Some(p) => i <= p.1 <= n && take_opt_pinfo(s@.skip(i as int)) == Some(
                (view_opt_pinfo(p.0), p.1 - i as int),
            ),
            None => take_opt_pinfo(s@.skip(i as int)) is None,
        },
{
    if let Some(j) = eat_null(s, n, i) {
        return Some((None, j));
    }
    let ghost t = s@.skip(i as int);
    let ln = "{\"version\":".unicode_len();
    let j1 = match eat_lit(s, n, i, "{\"version\":", ln) {
        None => {
            return None;
        },
        Some(j) => j,
    };
    proof {
        assert(t.skip(j1 - i as int) =~= s@.skip(j1 as int));
    }
    let (version, j2) = match eat_quoted(s, n, j1) {
        None => {
            return None;
        },
        Some(p) => p,
    };
    proof {
        assert(t.skip(j2 - i as int) =~= s@.skip(j2 as int));
    }
    let ln = ",\"github_url\":".unicode_len();
    let j3 = match eat_lit(s, n, j2, ",\"github_url\":", ln) {
        None => {
            return None;
        },
        Some(j) => j,
    };
    proof {
        assert(t.skip(j3 - i as int) =~= s@.skip(j3 as int));
    }
    let (github_url, j4) = match eat_quoted(s, n, j3) {
        None => {
            return None;
        },
        Some(p) => p,
    };
    proof {
        assert(t.skip(j4 - i as int) =~= s@.skip(j4 as int));
    }
    let ln = "}".unicode_len();
    let j5 = match eat_lit(s, n, j4, "}", ln) {
        None => {
            return None;
        },
        Some(j) => j,
    };
    let pi = ProtocolInfo { version, github_url };
    proof {
        assert(take_pinfo_obj(t) matches Some(q) && q.0 =~= pi@ && q.1 == j5 - i as int);
    }
    Some((Some(pi), j5))
}

fn eat_field_str(s: &str, n: usize, i: usize, key: &str) -> (r: Option<(Option<String>, usize)>)
    requires
        n == s@.len(),
        i <= n,
    ensures
        match r {
            Some(p) => i <= p.1 <= n && take_field_str(s@.skip(i as int), key@) == Some(
                (view_opt_string(p.0), p.1 - i as int),
            ),
            None => take_field_str(s@.skip(i as int), key@) is None,
        },
{
    let ln = key.unicode_len();
    let j1 = match eat_lit(s, n, i, key, ln) {
        None => {
            return None;
        },
        Some(j) => j,
    };
    proof {
        assert(s@.skip(i as int).skip(j1 - i as int) =~= s@.skip(j1 as int));
    }
    match eat_opt_str(s, n, j1) {
        None => None,
        Some((v, j2)) => Some((v, j2)),
    }
}

fn eat_field_identity(s: &str, n: usize, i: usize, key: &str) -> (r: Option<
    (Option<Identity>, usize),
>)
    requires
        n == s@.len(),
        i <= n,
    ensures
        match r {
            Some(p) => i <= p.1 <= n && take_field_identity(s@.skip(i as int), key@) == Some(
                (p.0, p.1 - i as int),
            ),
            None => take_field_identity(s@.skip(i as int), key@) is None,
        },
{
    let ln = key.unicode_len();
    let j1 = match eat_lit(s, n, i, key, ln) {
        None => {
            return None;
        },
        Some(j) => j,
    };
    proof {
        assert(s@.skip(i as int).skip(j1 - i as int) =~= s@.skip(j1 as int));
    }
    match eat_opt_identity(s, n, j1) {
        None => None,
        Some((v, j2)) => Some((v, j2)),
    }
}

fn eat_field_u64(s: &str, n: usize, i: usize, key: &str) -> (r: Option<(Option<u64>, usize)>)
    requires
        n == s@.len(),
        i <= n,
    ensures
        match r {
            Some(p) => i <= p.1 <= n && take_field_u64(s@.skip(i as int), key@) == Some(
                (p.0, p.1 - i as int),
            ),
            None => take_field_u64(s@.skip(i as int), key@) is None,
        },
{
    let ln = key.unicode_len();
    let j1 = match eat_lit(s, n, i, key, ln) {
        None => {
            return None;
        },
        Some(j) => j,
    };
    proof {
        assert(s@.skip(i as int).skip(j1 - i as int) =~= s@.skip(j1 as int));
    }
    match eat_opt_u64(s, n, j1) {
        None => None,
        Some((v, j2)) => Some((v, j2)),
    }
}

#[verifier::rlimit(60)]
fn eat_opt_data(s: &str, n: usize, i: usize) -> (r: Option<(Option<PacketData>, usize)>)
    requires
        n == s@.len(),
        i <= n,
    ensures
        match r {
            Some(p) => i <= p.1 <= n && take_opt_data(s@.skip(i as int)) == Some(
                (view_opt_data(p.0), p.1 - i as int),
            ),
            None => take_opt_data(s@.skip(i as int)) is None,
        },
{
    if let Some(j) = eat_null(s, n, i) {
        return Some((None, j));
    }
    let ghost t = s@.skip(i as int);
    let (program_name, j1) = match eat_field_str(s, n, i, "{\"ProgramName\":") {
        None => {
            return None;
        },
        Some(p) => p,
    };
    proof {
        assert(t.skip(j1 - i as int) =~= s@.skip(j1 as int));
    }
    let (identity, j2) = match eat_field_identity(s, n, j1, ",\"Identity\":") {
        None => {
            return None;
        },
        Some(p) => p,
    };
    proof {
        assert(t.skip(j2 - i as int) =~= s@.skip(j2 as int));
    }
    let (next_relay_address, j3) = match eat_field_str(s, n, j2, ",\"NextRelayAddress\":") {
        None => {
            return None;
        },
        Some(p) => p,
    };
    proof {
        assert(t.skip(j3 - i as int) =~= s@.skip(j3 as int));
    }
    let (file_name, j4) = match eat_field_str(s, n, j3, ",\"FileName\":") {
        None => {
            return None;
        },
        Some(p) => p,
    };
    proof {
        assert(t.skip(j4 - i as int) =~= s@.skip(j4 as int));
    }
    let (file_content, j5) = match eat_field_str(s, n, j4, ",\"FileContent\":") {
        None => {
            return None;
        },
        Some(p) => p,
    };
    proof {
        assert(t.skip(j5 - i as int) =~= s@.skip(j5 as int));
    }
    let (start_time, j6) = match eat_field_u64(s, n, j5, ",\"StartTime\":") {
        None => {
            return None;
        },
        Some(p) => p,
    };
    proof {
        assert(t.skip(j6 - i as int) =~= s@.skip(j6 as int));
    }
    let ln = "}".unicode_len();
    let j7 = match eat_lit(s, n, j6, "}", ln) {
        None => {
            return None;
        },
        Some(j) => j,
    };
    let d = PacketData {
        program_name,
        identity,
        next_relay_address,
        file_name,
        file_content,
        start_time,
    };
    proof {
        assert(take_data_obj(t) matches Some(q) && q.0 =~= d@ && q.1 == j7 - i as int);
    }
    Some((Some(d), j7))
}

fn eat_packet_head(s: &str, n: usize, i: usize) -> (r: Option<(PacketType, usize)>)
    requires
        n == s@.len(),
        i <= n,
    ensures
        match r {
            Some(p) => i <= p.1 <= n && take_packet_head(s@.skip(i as int)) == Some(
                (p.0, p.1 - i as int),
            ),
            None => take_packet_head(s@.skip(i as int)) is None,
        },
{
    let ghost t = s@.skip(i as int);
    let ln = "{\"packet_type\":\"".unicode_len();
    let j1 = match eat_lit(s, n, i, "{\"packet_type\":\"", ln) {
        None => {
            return None;
        },
        Some(j) => j,
    };
    proof {
        assert(t.skip(j1 - i as int) =~= s@.skip(j1 as int));
    }
    let ln = "Handshake\"".unicode_len();
    if let Some(j) = eat_lit(s, n, j1, "Handshake\"", ln) {
        return Some((PacketType::Handshake, j));
    }
    let ln = "RootConfiguration\"".unicode_len();
    if let Some(j) = eat_lit(s, n, j1, "RootConfiguration\"", ln) {
        return Some((PacketType::RootConfiguration, j));
    }
    let ln = "RelayFile\"".unicode_len();
    if let Some(j) = eat_lit(s, n, j1, "RelayFile\"", ln) {
        return Some((PacketType::RelayFile, j));
    }
    let ln = "InjectFile\"".unicode_len();
    if let Some(j) = eat_lit(s, n, j1, "InjectFile\"", ln) {
        return Some((PacketType::InjectFile, j));
    }
    None
}

/// Read one line back into a packet. Anything that does not spell a whole
/// packet exactly gives `None`.
pub fn parse_packet(line: &str) -> (r: Option<Packet>)
    ensures
        match r {
            Some(p) => spec_parse_packet(line@) == Some(p@),
            None => spec_parse_packet(line@) is None,
        },
{
    let n = line.unicode_len();
    let ghost t = line@;
    proof {
        assert(t.skip(0) =~= t);
    }
    let (packet_type, j1) = match eat_packet_head(line, n, 0) {
        None => {
            return None;
        },
        Some(p) => p,
    };
    let (protocol_info, j2) = match eat_pinfo_field(line, n, j1) {
        None => {
            return None;
        },
        Some(p) => p,
    };
    proof {
        assert(t.skip(j1 as int).skip(j2 - j1 as int) =~= t.skip(j2 as int));
    }
    let (data, j3) = match eat_data_field(line, n, j2) {
        None => {
            return None;
        },
        Some(p) => p,
    };
    proof {
        assert(t.skip(j2 as int).skip(j3 - j2 as int) =~= t.skip(j3 as int));
    }
    let ln = "}".unicode_len();
    let j4 = match eat_lit(line, n, j3, "}", ln) {
        None => {
            return None;
        },
        Some(j) => j,
    };
    if j4 != n {
        return None;
    }
    let p = Packet { packet_type, protocol_info, data };
    proof {
        assert(take_packet(t) matches Some(q) && q.0 =~= p@ && q.1 == j4 as int);
    }
    Some(p)
}

fn eat_pinfo_field(s: &str, n: usize, i: usize) -> (r: Option<(Option<ProtocolInfo>, usize)>)
    requires
        n == s@.len(),
        i <= n,
    ensures
        match r {
            Some(p) => i <= p.1 <= n && take_pinfo_field(s@.skip(i as int)) == Some(
                (view_opt_pinfo(p.0), p.1 - i as int),
            ),
            None => take_pinfo_field(s@.skip(i as int)) is None,
        },
{
    let ln = ",\"protocol_info\":".unicode_len();
    let j1 = match eat_lit(s, n, i, ",\"protocol_info\":", ln) {
        None => {
            return None;
        },
        Some(j) => j,
    };
    proof {
        assert(s@.skip(i as int).skip(j1 - i as int) =~= s@.skip(j1 as int));
    }
    match eat_opt_pinfo(s, n, j1) {
        None => None,
        Some((pi, j2)) => Some((pi, j2)),
    }
}

fn eat_data_field(s: &str, n: usize, i: usize) -> (r: Option<(Option<PacketData>, usize)>)
    requires
        n == s@.len(),
        i <= n,
    ensures
        match r {
            Some(p) => i <= p.1 <= n && take_data_field(s@.skip(i as int)) == Some(
                (view_opt_data(p.0), p.1 - i as int),
            ),
            None => take_data_field(s@.skip(i as int)) is None,
        },
{
    let ln = ",\"data\":".unicode_len();
    let j1 = match eat_lit(s, n, i, ",\"data\":", ln) {
        None => {
            return None;
        },
        Some(j) => j,
    };
    proof {
        assert(s@.skip(i as int).skip(j1 - i as int) =~= s@.skip(j1 as int));
    }
    match eat_opt_data(s, n, j1) {
        None => None,
        Some((d, j2)) => Some((d, j2)),
    }
}


// ---------------------------------------------------------------------------
// One line off the stream
// ---------------------------------------------------------------------------
pub open spec fn is_space(c: char) -> bool {
    c == ' ' || c == '\t' || c == '\r' || c == '\n'
}

pub open spec fn trim_front(s: Seq<char>) -> Seq<char>
    decreases s.len(),
{
    if s.len() > 0 && is_space(s[0]) {
        trim_front(s.skip(1))
    } else {
        s
    }
}

pub open spec fn trim_back(s: Seq<char>) -> Seq<char>
    decreases s.len(),
{
    if s.len() > 0 && is_space(s.last()) {
        trim_back(s.drop_last())
    } else {
        s
    }
}

/// A line as it is interpreted: leading and trailing whitespace dropped.
pub open spec fn spec_trim(s: Seq<char>) -> Seq<char> {
    trim_back(trim_front(s))
}

fn is_space_exec(c: char) -> (r: bool)
    ensures
        r == is_space(c),
{
    c == ' ' || c == '\t' || c == '\r' || c == '\n'
}

/// Drop leading and trailing whitespace, as a reader does before
/// interpreting a line.
pub fn trim_line(s: &str) -> (r: &str)
    ensures
        r@ == spec_trim(s@),
{
    let n = s.unicode_len();
    let mut lo: usize = 0;
    proof {
        assert(s@.skip(0) =~= s@);
    }
    while lo < n && is_space_exec(s.get_char(lo))
        invariant
            n == s@.len(),
            lo <= n,
            trim_front(s@) == trim_front(s@.skip(lo as int)),
        decreases n - lo,
    {
        proof {
            assert(s@.skip(lo as int)[0] == s@[lo as int]);
            assert(s@.skip(lo as int).skip(1) =~= s@.skip(lo + 1));
        }
        lo = lo + 1;
    }
    proof {
        if lo < n {
            assert(s@.skip(lo as int)[0] == s@[lo as int]);
        }
        assert(trim_front(s@) == s@.skip(lo as int));
    }
    let mut hi: usize = n;
    while hi > lo && is_space_exec(s.get_char(hi - 1))
        invariant
            n == s@.len(),
            lo <= hi <= n,
            trim_front(s@) == s@.skip(lo as int),
            trim_back(s@.skip(lo as int)) == trim_back(s@.subrange(lo as int, hi as int)),
        decreases hi,
    {
        proof {
            let t = s@.subrange(lo as int, hi as int);
            assert(t.last() == s@[hi - 1]);
            assert(t.drop_last() =~= s@.subrange(lo as int, hi - 1));
        }
        hi = hi - 1;
    }
    proof {
        let t = s@.subrange(lo as int, hi as int);
        if hi > lo {
            assert(t.last() == s@[hi - 1]);
        }
        assert(trim_back(t) == t);
        assert(s@.skip(lo as int) =~= s@.subrange(lo as int, n as int));
    }
    s.substring_char(lo, hi)
}

/// What one line of the stream means to a reader.
pub enum LineOutcome {
    /// A blank line: the peer is gone; stop reading this connection.
    Disconnect,
    /// A line that does not spell a packet: drop it and keep reading.
    Malformed,
    /// A well-formed packet.
    Parsed(Packet),
}

#[verifier::ext_equal]
pub ghost enum LineOutcomeV {
    Disconnect,
    Malformed,
    Parsed(PacketV),
}

impl View for LineOutcome {
    type V = LineOutcomeV;

    open spec fn view(&self) -> LineOutcomeV {
        match self {
            LineOutcome::Disconnect => LineOutcomeV::Disconnect,
            LineOutcome::Malformed => LineOutcomeV::Malformed,
            LineOutcome::Parsed(p) => LineOutcomeV::Parsed(p@),
        }
    }
}

/// What a reader does with one line, as a value.
pub open spec fn spec_classify_line(line: Seq<char>) -> LineOutcomeV {
    if spec_trim(line).len() == 0 {
        LineOutcomeV::Disconnect
    } else {
        match spec_parse_packet(spec_trim(line)) {
            None => LineOutcomeV::Malformed,
            Some(p) => LineOutcomeV::Parsed(p),
        }
    }
}

/// Interpret one line: a blank line means the peer disconnected, a line
/// that does not spell a packet is dropped (the connection stays open), and
/// anything else is the packet it spells.
pub fn classify_line(line: &str) -> (r: LineOutcome)
    ensures
        r@ == spec_classify_line(line@),
{
    let trimmed = trim_line(line);
    if trimmed.unicode_len() == 0 {
        LineOutcome::Disconnect
    } else {
        match parse_packet(trimmed) {
            None => LineOutcome::Malformed,
            Some(p) => LineOutcome::Parsed(p),
        }
    }
}

} // verus!
