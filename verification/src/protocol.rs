//! The wire protocol: fixed-layout binary packets with a 4-byte
//! big-endian type tag, the per-type payload size table, the framing of
//! a byte stream into packets, and the match-announcement codec.
//!
//! The two packet kinds share the numeric tag value because they flow
//! in opposite directions, so the size tables are kept per direction.

use vstd::prelude::*;

use crate::bytes::{
    lemma_u32_be_round_trip, lemma_u64_be_round_trip, push_u32_be, read_u32_be, read_u64_be,
    u32_be, u32_from_be, u64_be, u64_from_be,
};
use crate::group::{
    group_bytes, ids_bytes, lemma_ids_bytes_index, lemma_ids_bytes_len, match_bytes, Group, Match,
};
use crate::ids::SlamIdQueued;

verus! {

/// Every message starts with a 4-byte big-endian packet type.
pub const HEADER_SIZE: usize = 4;

/// Tag of the server-to-client match announcement.
pub const MATCH_INFO_PACKET_ID: u32 = 0;

/// Tag of the client-to-server match result report.
pub const MATCH_RESULT_PACKET_ID: u32 = 0;

/// Payload size of a match result report: a `u64` match id and a
/// `u32` winner indicator.
pub const MATCH_RESULT_PACKET_SIZE: usize = 12;

/// Payload size for a server-bound packet tag. The tag is the one
/// defined server-bound tag; an unrecognized tag is a protocol error
/// the framing reports instead.
pub fn get_serverbound_packet_len(id: u32) -> (r: usize)
    requires
        id == MATCH_RESULT_PACKET_ID,
    ensures
        r == MATCH_RESULT_PACKET_SIZE,
{
    MATCH_RESULT_PACKET_SIZE
}

/// Fixed payload size for a client-bound packet tag. No client-bound
/// packet has one: the match announcement's length depends on the team
/// sizes it carries, so there is no size to give for any tag.
pub fn get_clientbound_packet_len(_id: u32) -> (r: Option<usize>)
    ensures
        r is None,
{
    None
}

/// A client's report of a match outcome: the content-derived match id
/// and a winner indicator.
#[derive(Clone, Copy, PartialEq, Eq, Structural, Debug)]
pub struct MatchResultPacket {
    pub match_id: u64,
    pub winner: u32,
}

impl MatchResultPacket {
    /// Reads the fixed payload: big-endian match id, then winner.
    pub fn decode(data: &[u8]) -> (r: Self)
        requires
            data@.len() >= MATCH_RESULT_PACKET_SIZE,
        ensures
            r.match_id == u64_from_be(data@.subrange(0, 8)),
            r.winner == u32_from_be(data@.subrange(8, 12)),
    {
        let match_id = read_u64_be(data, 0);
        let winner = read_u32_be(data, 8);
        MatchResultPacket { match_id, winner }
    }
}

/// Dispatches one complete server-bound packet: a known tag decodes to
/// its packet, an unrecognized tag is a protocol error and yields
/// nothing, after which the connection cannot be resynchronized.
pub fn handle_packet(id: u32, data: &[u8]) -> (r: Option<MatchResultPacket>)
    requires
        id == MATCH_RESULT_PACKET_ID ==> data@.len() >= MATCH_RESULT_PACKET_SIZE,
    ensures
        match r {
            Some(p) => {
                &&& id == MATCH_RESULT_PACKET_ID
                &&& p.match_id == u64_from_be(data@.subrange(0, 8))
                &&& p.winner == u32_from_be(data@.subrange(8, 12))
            },
            None => id != MATCH_RESULT_PACKET_ID,
        },
{
    if id == MATCH_RESULT_PACKET_ID {
        Some(MatchResultPacket::decode(data))
    } else {
        None
    }
}

/// What framing a buffered byte stream yields: the complete packets in
/// order, how many bytes they spanned, and whether the stream is still
/// well-formed (`false` as soon as an unrecognized tag is seen, after
/// which the connection must close).
pub open spec fn spec_drain(s: Seq<u8>) -> (Seq<MatchResultPacket>, int, bool)
    decreases s.len(),
{
    if s.len() < HEADER_SIZE {
        (Seq::empty(), 0, true)
    } else {
        let id = u32_from_be(s.subrange(0, HEADER_SIZE as int));
        if id != MATCH_RESULT_PACKET_ID {
            (Seq::empty(), 0, false)
        } else if s.len() < HEADER_SIZE + MATCH_RESULT_PACKET_SIZE {
            (Seq::empty(), 0, true)
        } else {
            let p = MatchResultPacket {
                match_id: u64_from_be(s.subrange(4, 12)),
                winner: u32_from_be(s.subrange(12, 16)),
            };
            let rest = spec_drain(s.skip(16));
            (seq![p] + rest.0, 16 + rest.1, rest.2)
        }
    }
}

/// Frames the buffered bytes into complete packets: repeatedly peeks
/// the tag, looks up the payload size, and dispatches whole packets,
/// stopping at a partial message (kept for more bytes) or at an
/// unrecognized tag (a protocol error). Returns the packets, the bytes
/// consumed, and whether the stream stayed well-formed.
#[verifier::loop_isolation(false)]
pub fn drain_serverbound(buf: &[u8]) -> (r: (Vec<MatchResultPacket>, usize, bool))
    ensures
        r.0@ == spec_drain(buf@).0,
        r.1 as int == spec_drain(buf@).1,
        r.2 == spec_drain(buf@).2,
{
    let mut out: Vec<MatchResultPacket> = Vec::new();
    let mut cursor: usize = 0;
    proof {
        assert(buf@.skip(0) =~= buf@);
    }
    while buf.len() - cursor >= HEADER_SIZE
        invariant
            cursor <= buf@.len(),
            spec_drain(buf@).0 == out@ + spec_drain(buf@.skip(cursor as int)).0,
            spec_drain(buf@).1 == cursor + spec_drain(buf@.skip(cursor as int)).1,
            spec_drain(buf@).2 == spec_drain(buf@.skip(cursor as int)).2,
        decreases buf@.len() - cursor,
    {
        let ghost tail = buf@.skip(cursor as int);
        let id = read_u32_be(buf, cursor);
        proof {
            assert(tail.subrange(0, 4) =~= buf@.subrange(cursor as int, cursor as int + 4));
        }
        if id != MATCH_RESULT_PACKET_ID {
            proof {
                assert(spec_drain(tail).0 =~= Seq::<MatchResultPacket>::empty());
                assert(out@ + spec_drain(tail).0 =~= out@);
            }
            return (out, cursor, false);
        }
        let packet_len = get_serverbound_packet_len(id);
        if buf.len() - cursor < HEADER_SIZE + packet_len {
            proof {
                assert(out@ + spec_drain(tail).0 =~= out@);
            }
            return (out, cursor, true);
        }
        let match_id = read_u64_be(buf, cursor + 4);
        let winner = read_u32_be(buf, cursor + 12);
        let p = MatchResultPacket { match_id, winner };
        proof {
            assert(tail.subrange(4, 12) =~= buf@.subrange(cursor as int + 4, cursor as int + 12));
            assert(tail.subrange(12, 16) =~= buf@.subrange(
                cursor as int + 12,
                cursor as int + 16,
            ));
            assert(p == spec_drain(tail).0[0]);
            assert(tail.skip(16) =~= buf@.skip(cursor as int + 16));
            assert(spec_drain(tail).0 =~= seq![p] + spec_drain(buf@.skip(cursor as int + 16)).0);
        }
        let ghost prev = out@;
        out.push(p);
        proof {
            assert(out@ + spec_drain(buf@.skip(cursor as int + 16)).0 =~= prev + spec_drain(
                tail,
            ).0);
        }
        cursor = cursor + 16;
    }
    proof {
        assert(out@ + spec_drain(buf@.skip(cursor as int)).0 =~= out@);
    }
    (out, cursor, true)
}

/// A server-to-client match announcement.
#[derive(Clone, Debug)]
pub struct MatchInfoPacket {
    pub matsh: Match,
}

impl MatchInfoPacket {
    /// The packet's bytes: the tag, then the match's wire encoding.
    pub fn encode(&self) -> (r: Vec<u8>)
        requires
            self.matsh.spec_g1().spec_players().len() <= u32::MAX,
            self.matsh.spec_g2().spec_players().len() <= u32::MAX,
        ensures
            r@ == u32_be(MATCH_INFO_PACKET_ID) + match_bytes(self.matsh),
    {
        let mut v: Vec<u8> = Vec::new();
        push_u32_be(&mut v, MATCH_INFO_PACKET_ID);
        let mut body = self.matsh.as_bytes();
        v.append(&mut body);
        v
    }
}

/// The mathematical content of a match announcement: both teams'
/// player ids and total ratings.
pub struct MatchModel {
    pub g1_ids: Seq<u64>,
    pub g1_total: u64,
    pub g2_ids: Seq<u64>,
    pub g2_total: u64,
}

/// The content of a formed match.
pub open spec fn match_model(m: Match) -> MatchModel {
    MatchModel {
        g1_ids: m.spec_g1().spec_players().map_values(|p: SlamIdQueued| p.id),
        g1_total: m.spec_g1().spec_total_elo(),
        g2_ids: m.spec_g2().spec_players().map_values(|p: SlamIdQueued| p.id),
        g2_total: m.spec_g2().spec_total_elo(),
    }
}

/// Reads one team from the front of `s`: its ids, its total, and the
/// bytes it spans; or nothing where the bytes do not hold a whole team.
pub open spec fn spec_decode_group(s: Seq<u8>) -> Option<(Seq<u64>, u64, int)> {
    if s.len() < 4 {
        None
    } else {
        let cnt = u32_from_be(s.subrange(0, 4)) as int;
        if s.len() < 4 + 8 * cnt + 8 {
            None
        } else {
            let ids = Seq::new(cnt as nat, |k: int| u64_from_be(s.subrange(4 + 8 * k, 12 + 8 * k)));
            let total = u64_from_be(s.subrange(4 + 8 * cnt, 12 + 8 * cnt));
            Some((ids, total, 12 + 8 * cnt))
        }
    }
}

/// Reads a whole match: two teams spanning the bytes exactly.
pub open spec fn spec_decode_match(s: Seq<u8>) -> Option<MatchModel> {
    match spec_decode_group(s) {
        Option::None => Option::None,
        Option::Some((ids1, t1, c1)) => match spec_decode_group(s.skip(c1)) {
            Option::None => Option::None,
            Option::Some((ids2, t2, c2)) => if s.len() == c1 + c2 {
                Option::Some(MatchModel { g1_ids: ids1, g1_total: t1, g2_ids: ids2, g2_total: t2 })
            } else {
                Option::None
            },
        },
    }
}

/// Decoding a team's wire encoding, whatever follows it, reads back
/// exactly its ids and total and consumes exactly its bytes.
proof fn lemma_group_decode(g: Group, rest: Seq<u8>)
    requires
        g.spec_players().len() <= u32::MAX,
    ensures
        spec_decode_group(group_bytes(g) + rest) == Some(
            (
                g.spec_players().map_values(|p: SlamIdQueued| p.id),
                g.spec_total_elo(),
                group_bytes(g).len() as int,
            ),
        ),
        (group_bytes(g) + rest).skip(group_bytes(g).len() as int) == rest,
{
    let ps = g.spec_players();
    let cnt = ps.len() as int;
    let s = group_bytes(g) + rest;
    lemma_ids_bytes_len(ps);
    assert(s.subrange(0, 4) =~= u32_be(cnt as u32));
    lemma_u32_be_round_trip(cnt as u32);
    assert(u32_from_be(s.subrange(0, 4)) == cnt);
    assert(s.len() >= 4 + 8 * cnt + 8);
    let ids = Seq::new(cnt as nat, |k: int| u64_from_be(s.subrange(4 + 8 * k, 12 + 8 * k)));
    assert forall|k: int| 0 <= k < cnt implies ids[k] == #[trigger] ps[k].id by {
        lemma_ids_bytes_index(ps, k);
        assert(s.subrange(4 + 8 * k, 12 + 8 * k) =~= ids_bytes(ps).subrange(8 * k, 8 * k + 8));
        lemma_u64_be_round_trip(ps[k].id);
    }
    assert(ids =~= ps.map_values(|p: SlamIdQueued| p.id));
    assert(s.subrange(4 + 8 * cnt, 12 + 8 * cnt) =~= u64_be(g.spec_total_elo()));
    lemma_u64_be_round_trip(g.spec_total_elo());
    assert(group_bytes(g).len() == 12 + 8 * cnt);
    assert(s.skip(group_bytes(g).len() as int) =~= rest);
}

/// Law: decoding a match's wire encoding reproduces its player ids and
/// aggregate ratings, for both teams.
pub proof fn lemma_match_codec_round_trip(m: Match)
    requires
        m.spec_g1().spec_players().len() <= u32::MAX,
        m.spec_g2().spec_players().len() <= u32::MAX,
    ensures
        spec_decode_match(match_bytes(m)) == Some(match_model(m)),
{
    let s = match_bytes(m);
    lemma_group_decode(m.spec_g1(), group_bytes(m.spec_g2()));
    lemma_group_decode(m.spec_g2(), Seq::empty());
    assert(group_bytes(m.spec_g2()) + Seq::<u8>::empty() =~= group_bytes(m.spec_g2()));
    assert(s.skip(group_bytes(m.spec_g1()).len() as int) == group_bytes(m.spec_g2()));
}

/// Reads one team starting at `off`; the counterpart of
/// `spec_decode_group` on the bytes from `off` on.
#[verifier::loop_isolation(false)]
fn parse_group(data: &[u8], off: usize) -> (r: Option<(Group, usize)>)
    requires
        off <= data@.len(),
    ensures
        match r {
            Some(gc) => {
                &&& spec_decode_group(data@.skip(off as int)) == Some(
                    (
                        gc.0.spec_players().map_values(|p: SlamIdQueued| p.id),
                        gc.0.spec_total_elo(),
                        gc.1 as int,
                    ),
                )
                &&& off + gc.1 <= data@.len()
            },
            None => spec_decode_group(data@.skip(off as int)) is None,
        },
{
    let ghost tail = data@.skip(off as int);
    if data.len() - off < 4 {
        return None;
    }
    let cnt32 = read_u32_be(data, off);
    proof {
        assert(tail.subrange(0, 4) =~= data@.subrange(off as int, off as int + 4));
    }
    let cnt = cnt32 as usize;
    let remaining = data.len() - off - 4;
    if (remaining as u64) < 8 * (cnt as u64) + 8 {
        return None;
    }
    proof {
        assert(off + 4 + 8 * (cnt as int) + 8 <= data@.len());
    }
    let mut players: Vec<SlamIdQueued> = Vec::new();
    let mut k: usize = 0;
    while k < cnt
        invariant
            off + 4 + 8 * cnt + 8 <= data@.len(),
            tail == data@.skip(off as int),
            cnt == u32_from_be(tail.subrange(0, 4)),
            0 <= k <= cnt,
            players@.len() == k,
            forall|j: int|
                0 <= j < k ==> #[trigger] players@[j].id == u64_from_be(
                    tail.subrange(4 + 8 * j, 12 + 8 * j),
                ),
        decreases cnt - k,
    {
        let id = read_u64_be(data, off + 4 + 8 * k);
        proof {
            assert(tail.subrange(4 + 8 * (k as int), 12 + 8 * (k as int)) =~= data@.subrange(
                off as int + 4 + 8 * (k as int),
                off as int + 12 + 8 * (k as int),
            ));
        }
        players.push(SlamIdQueued::new(crate::ids::SlamId::new(id)));
        k = k + 1;
    }
    let total = read_u64_be(data, off + 4 + 8 * cnt);
    proof {
        assert(tail.subrange(4 + 8 * (cnt as int), 12 + 8 * (cnt as int)) =~= data@.subrange(
            off as int + 4 + 8 * (cnt as int),
            off as int + 12 + 8 * (cnt as int),
        ));
    }
    let g = Group::new(players, total);
    proof {
        let ids = Seq::new(
            cnt as nat,
            |k: int| u64_from_be(tail.subrange(4 + 8 * k, 12 + 8 * k)),
        );
        assert(g.spec_players().map_values(|p: SlamIdQueued| p.id) =~= ids);
        assert(spec_decode_group(tail) == Some(
            (ids, g.spec_total_elo(), 12 + 8 * (cnt as int)),
        ));
    }
    Some((g, 12 + 8 * cnt))
}

/// Reads a match announcement payload back into a match: the inverse
/// of the match encoding, where the bytes hold exactly two teams.
pub fn decode_match_info(data: &[u8]) -> (r: Option<Match>)
    ensures
        match r {
            Some(m) => spec_decode_match(data@) == Some(match_model(m)),
            None => spec_decode_match(data@) is None,
        },
{
    proof {
        assert(data@.skip(0) =~= data@);
    }
    let total_len = data.len();
    let first = parse_group(data, 0);
    match first {
        None => None,
        Some((g1, c1)) => {
            let second = parse_group(data, c1);
            match second {
                None => None,
                Some((g2, c2)) => {
                    if c1 + c2 == total_len {
                        let m = Match::new(g1, g2);
                        Some(m)
                    } else {
                        None
                    }
                },
            }
        },
    }
}

} // verus!
