use slam::group::{Group, Match};
use slam::ids::{SlamId, SlamIdQueued};
use slam::protocol::{
    decode_match_info, drain_serverbound, get_clientbound_packet_len, get_serverbound_packet_len,
    handle_packet, MatchInfoPacket, MatchResultPacket, HEADER_SIZE, MATCH_RESULT_PACKET_ID,
    MATCH_RESULT_PACKET_SIZE,
};

fn queued(id: u64) -> SlamIdQueued {
    SlamIdQueued::new(SlamId::new(id))
}

fn sample_match() -> Match {
    let g1 = Group::new(vec![queued(1), queued(2)], 30);
    let g2 = Group::new(vec![queued(3), queued(4)], 70);
    Match::new(g1, g2)
}

#[test]
fn packet_size_tables() {
    assert_eq!(HEADER_SIZE, 4);
    assert_eq!(get_serverbound_packet_len(MATCH_RESULT_PACKET_ID), 12);
    assert_eq!(get_clientbound_packet_len(0), None);
    assert_eq!(get_clientbound_packet_len(9), None);
}

#[test]
fn match_info_encoding_is_byte_exact() {
    // What a connected client receives for a known match, byte for
    // byte: 4-byte tag, then per team a u32 count, the u64 ids, and
    // the u64 total rating, all big-endian.
    let packet = MatchInfoPacket { matsh: sample_match() };
    let bytes = packet.encode();
    let mut expected: Vec<u8> = Vec::new();
    expected.extend(0u32.to_be_bytes());
    expected.extend(2u32.to_be_bytes());
    expected.extend(1u64.to_be_bytes());
    expected.extend(2u64.to_be_bytes());
    expected.extend(30u64.to_be_bytes());
    expected.extend(2u32.to_be_bytes());
    expected.extend(3u64.to_be_bytes());
    expected.extend(4u64.to_be_bytes());
    expected.extend(70u64.to_be_bytes());
    assert_eq!(bytes, expected);
}

#[test]
fn match_encoding_round_trips() {
    let m = sample_match();
    let bytes = m.as_bytes();
    let decoded = decode_match_info(&bytes).expect("own encoding must decode");
    let ids = |g: &Group| g.players().iter().map(|p| p.id).collect::<Vec<u64>>();
    assert_eq!(ids(decoded.g1()), ids(m.g1()));
    assert_eq!(ids(decoded.g2()), ids(m.g2()));
    assert_eq!(decoded.g1().total_elo(), m.g1().total_elo());
    assert_eq!(decoded.g2().total_elo(), m.g2().total_elo());
}

#[test]
fn truncated_or_padded_match_bytes_do_not_decode() {
    let m = sample_match();
    let mut bytes = m.as_bytes();
    bytes.pop();
    assert!(decode_match_info(&bytes).is_none());
    let mut padded = m.as_bytes();
    padded.push(0);
    assert!(decode_match_info(&padded).is_none());
}

#[test]
fn match_hash_is_content_derived() {
    let m1 = sample_match();
    let m2 = sample_match();
    assert_eq!(m1.get_hash(), m2.get_hash());
    let other = Match::new(
        Group::new(vec![queued(1), queued(2)], 30),
        Group::new(vec![queued(3), queued(5)], 70),
    );
    assert_ne!(m1.get_hash(), other.get_hash());
}

#[test]
fn result_packet_decodes_fixed_fields() {
    let mut data: Vec<u8> = Vec::new();
    data.extend(0x1122334455667788u64.to_be_bytes());
    data.extend(1u32.to_be_bytes());
    let p = MatchResultPacket::decode(&data);
    assert_eq!(p.match_id, 0x1122334455667788);
    assert_eq!(p.winner, 1);
}

#[test]
fn handle_packet_accepts_known_tag_only() {
    let mut data: Vec<u8> = Vec::new();
    data.extend(77u64.to_be_bytes());
    data.extend(0u32.to_be_bytes());
    let p = handle_packet(MATCH_RESULT_PACKET_ID, &data).expect("known tag decodes");
    assert_eq!(p.match_id, 77);
    assert_eq!(p.winner, 0);
    assert!(handle_packet(3, &data).is_none());
}

#[test]
fn framing_dispatches_complete_packets() {
    let mut buf: Vec<u8> = Vec::new();
    for (id, winner) in [(10u64, 0u32), (11, 1)] {
        buf.extend(MATCH_RESULT_PACKET_ID.to_be_bytes());
        buf.extend(id.to_be_bytes());
        buf.extend(winner.to_be_bytes());
    }
    let (packets, consumed, ok) = drain_serverbound(&buf);
    assert!(ok);
    assert_eq!(consumed, 2 * (HEADER_SIZE + MATCH_RESULT_PACKET_SIZE));
    assert_eq!(packets.len(), 2);
    assert_eq!(packets[0].match_id, 10);
    assert_eq!(packets[0].winner, 0);
    assert_eq!(packets[1].match_id, 11);
    assert_eq!(packets[1].winner, 1);
}

#[test]
fn framing_retains_partial_packet() {
    let mut buf: Vec<u8> = Vec::new();
    buf.extend(MATCH_RESULT_PACKET_ID.to_be_bytes());
    buf.extend(5u64.to_be_bytes());
    buf.extend(0u32.to_be_bytes());
    buf.extend(MATCH_RESULT_PACKET_ID.to_be_bytes());
    buf.extend(&6u64.to_be_bytes()[..4]);
    let (packets, consumed, ok) = drain_serverbound(&buf);
    assert!(ok);
    assert_eq!(packets.len(), 1);
    assert_eq!(packets[0].match_id, 5);
    // The second, incomplete message stays buffered.
    assert_eq!(consumed, HEADER_SIZE + MATCH_RESULT_PACKET_SIZE);
}

#[test]
fn framing_reports_unknown_tag_as_protocol_error() {
    let mut buf: Vec<u8> = Vec::new();
    buf.extend(9u32.to_be_bytes());
    buf.extend(5u64.to_be_bytes());
    buf.extend(0u32.to_be_bytes());
    let (packets, consumed, ok) = drain_serverbound(&buf);
    assert!(!ok);
    assert!(packets.is_empty());
    assert_eq!(consumed, 0);
}

#[test]
fn framing_waits_on_short_header() {
    let buf: Vec<u8> = vec![0, 0];
    let (packets, consumed, ok) = drain_serverbound(&buf);
    assert!(ok);
    assert!(packets.is_empty());
    assert_eq!(consumed, 0);
}
