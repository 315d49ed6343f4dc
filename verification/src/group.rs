//! Teams and matches: a `Group` is one team of players with its summed
//! rating, a `Match` is two groups, encoded to a fixed byte layout and
//! identified by a content-derived 64-bit hash.

use vstd::prelude::*;

use crate::bytes::{push_u32_be, push_u64_be, u32_be, u64_be};
use crate::ids::SlamIdQueued;

verus! {

/// FNV-1a parameters for the 64-bit content hash of a match.
pub const FNV_OFFSET_BASIS: u64 = 0xcbf29ce484222325;

pub const FNV_PRIME: u64 = 0x100000001b3;

/// The concatenated big-endian encodings of the players' ids.
pub open spec fn ids_bytes(ids: Seq<SlamIdQueued>) -> Seq<u8>
    decreases ids.len(),
{
    if ids.len() == 0 {
        Seq::empty()
    } else {
        u64_be(ids[0].id) + ids_bytes(ids.drop_first())
    }
}

/// Appending a player appends its eight id bytes.
pub proof fn lemma_ids_bytes_push(ids: Seq<SlamIdQueued>, x: SlamIdQueued)
    ensures
        ids_bytes(ids.push(x)) == ids_bytes(ids) + u64_be(x.id),
    decreases ids.len(),
{
    if ids.len() == 0 {
        assert(ids.push(x)[0] == x);
        assert(ids.push(x).drop_first() =~= Seq::<SlamIdQueued>::empty());
        assert(ids_bytes(Seq::<SlamIdQueued>::empty()) =~= Seq::<u8>::empty());
        assert(ids_bytes(ids.push(x)) =~= ids_bytes(ids) + u64_be(x.id));
    } else {
        lemma_ids_bytes_push(ids.drop_first(), x);
        assert(ids.push(x)[0] == ids[0]);
        assert(ids.push(x).drop_first() =~= ids.drop_first().push(x));
        assert(ids_bytes(ids.push(x)) =~= ids_bytes(ids) + u64_be(x.id));
    }
}

/// The id block is eight bytes per player.
pub proof fn lemma_ids_bytes_len(ids: Seq<SlamIdQueued>)
    ensures
        ids_bytes(ids).len() == 8 * ids.len(),
    decreases ids.len(),
{
    if ids.len() > 0 {
        lemma_ids_bytes_len(ids.drop_first());
    }
}

/// The eight bytes at position `8 * k` of the id block encode the id of
/// player `k`.
pub proof fn lemma_ids_bytes_index(ids: Seq<SlamIdQueued>, k: int)
    requires
        0 <= k < ids.len(),
    ensures
        ids_bytes(ids).subrange(8 * k, 8 * k + 8) == u64_be(ids[k].id),
    decreases k,
{
    lemma_ids_bytes_len(ids);
    lemma_ids_bytes_len(ids.drop_first());
    if k == 0 {
        assert(ids_bytes(ids).subrange(0, 8) =~= u64_be(ids[0].id));
    } else {
        lemma_ids_bytes_index(ids.drop_first(), k - 1);
        assert(ids_bytes(ids).subrange(8 * k, 8 * k + 8) =~= ids_bytes(ids.drop_first()).subrange(
            8 * (k - 1),
            8 * (k - 1) + 8,
        ));
    }
}

/// One team: the queued players that form it and the sum of their
/// ratings at formation time.
#[derive(Clone, Debug, PartialEq, Eq, Hash)]
pub struct Group {
    players: Vec<SlamIdQueued>,
    total_elo: u64,
}

impl Group {
    /// The players of the team, in the order they were collected from
    /// the queue.
    pub closed spec fn spec_players(self) -> Seq<SlamIdQueued> {
        self.players@
    }

    /// The precomputed sum of the members' ratings.
    pub closed spec fn spec_total_elo(self) -> u64 {
        self.total_elo
    }

    pub fn new(players: Vec<SlamIdQueued>, total_elo: u64) -> (r: Self)
        ensures
            r.spec_players() == players@,
            r.spec_total_elo() == total_elo,
    {
        Group { players, total_elo }
    }

    pub fn players(&self) -> (r: &Vec<SlamIdQueued>)
        ensures
            r@ == self.spec_players(),
    {
        &self.players
    }

    pub fn total_elo(&self) -> (r: u64)
        ensures
            r == self.spec_total_elo(),
    {
        self.total_elo
    }
}

/// The wire encoding of one team: a `u32` member count, the members'
/// ids, and the team's total rating, all big-endian.
pub open spec fn group_bytes(g: Group) -> Seq<u8>
    recommends
        g.spec_players().len() <= u32::MAX,
{
    u32_be(g.spec_players().len() as u32) + ids_bytes(g.spec_players()) + u64_be(g.spec_total_elo())
}

/// A formed match: two teams, encoded team A first.
#[derive(Clone, Debug, PartialEq, Eq, Hash)]
pub struct Match {
    g1: Group,
    g2: Group,
}

/// The wire encoding of a match: both teams' encodings in order.
pub open spec fn match_bytes(m: Match) -> Seq<u8> {
    group_bytes(m.spec_g1()) + group_bytes(m.spec_g2())
}

/// One FNV-1a step: fold the byte in, then multiply modulo 2^64.
pub open spec fn fnv1a_step(acc: u64, b: u8) -> u64 {
    ((((acc ^ (b as u64)) as nat) * (FNV_PRIME as nat)) % 0x10000000000000000nat) as u64
}

/// FNV-1a over a byte sequence, left to right, starting from `acc`.
pub open spec fn fnv1a(s: Seq<u8>, acc: u64) -> u64
    decreases s.len(),
{
    if s.len() == 0 {
        acc
    } else {
        fnv1a(s.drop_first(), fnv1a_step(acc, s[0]))
    }
}

/// Hashing one more byte is one more step on the accumulator.
pub proof fn lemma_fnv1a_push(s: Seq<u8>, acc: u64, b: u8)
    ensures
        fnv1a(s.push(b), acc) == fnv1a_step(fnv1a(s, acc), b),
    decreases s.len(),
{
    if s.len() == 0 {
        assert(s.push(b)[0] == b);
        assert(s.push(b).drop_first() =~= Seq::<u8>::empty());
        assert(fnv1a(Seq::<u8>::empty(), fnv1a_step(acc, b)) == fnv1a_step(acc, b));
    } else {
        assert(s.push(b)[0] == s[0]);
        assert(s.push(b).drop_first() =~= s.drop_first().push(b));
        lemma_fnv1a_push(s.drop_first(), fnv1a_step(acc, s[0]), b);
    }
}

/// The content-derived identifier of a match: FNV-1a over its wire
/// encoding.
pub open spec fn match_hash(m: Match) -> u64 {
    fnv1a(match_bytes(m), FNV_OFFSET_BASIS)
}

impl Match {
    pub closed spec fn spec_g1(self) -> Group {
        self.g1
    }

    pub closed spec fn spec_g2(self) -> Group {
        self.g2
    }

    pub fn new(g1: Group, g2: Group) -> (r: Self)
        ensures
            r.spec_g1() == g1,
            r.spec_g2() == g2,
    {
        Match { g1, g2 }
    }

    pub fn g1(&self) -> (r: &Group)
        ensures
            *r == self.spec_g1(),
    {
        &self.g1
    }

    pub fn g2(&self) -> (r: &Group)
        ensures
            *r == self.spec_g2(),
    {
        &self.g2
    }

    /// The match's wire encoding.
    pub fn as_bytes(&self) -> (r: Vec<u8>)
        requires
            self.spec_g1().spec_players().len() <= u32::MAX,
            self.spec_g2().spec_players().len() <= u32::MAX,
        ensures
            r@ == match_bytes(*self),
    {
        let mut v: Vec<u8> = Vec::new();
        push_group_bytes(&mut v, &self.g1);
        push_group_bytes(&mut v, &self.g2);
        v
    }

    /// The content-derived identifier used to correlate this match with
    /// a later result report.
    pub fn get_hash(&self) -> (r: u64)
        requires
            self.spec_g1().spec_players().len() <= u32::MAX,
            self.spec_g2().spec_players().len() <= u32::MAX,
        ensures
            r == match_hash(*self),
    {
        let bytes = self.as_bytes();
        let mut h: u64 = FNV_OFFSET_BASIS;
        let mut k: usize = 0;
        while k < bytes.len()
            invariant
                0 <= k <= bytes.len(),
                bytes@ == match_bytes(*self),
                h == fnv1a(bytes@.take(k as int), FNV_OFFSET_BASIS),
            decreases bytes.len() - k,
        {
            let b = bytes[k];
            proof {
                lemma_fnv1a_push(bytes@.take(k as int), FNV_OFFSET_BASIS, b);
                assert(bytes@.take(k + 1) =~= bytes@.take(k as int).push(b));
            }
            h = (h ^ (b as u64)).wrapping_mul(FNV_PRIME);
            k = k + 1;
        }
        proof {
            assert(bytes@.take(bytes@.len() as int) =~= bytes@);
        }
        h
    }
}

/// Appends one team's wire encoding to `v`.
fn push_group_bytes(v: &mut Vec<u8>, g: &Group)
    requires
        g.spec_players().len() <= u32::MAX,
    ensures
        final(v)@ == old(v)@ + group_bytes(*g),
{
    let players = g.players();
    push_u32_be(v, players.len() as u32);
    let mut k: usize = 0;
    while k < players.len()
        invariant
            0 <= k <= players.len(),
            players@ == g.spec_players(),
            players@.len() <= u32::MAX,
            v@ == old(v)@ + u32_be(players@.len() as u32) + ids_bytes(players@.take(k as int)),
        decreases players.len() - k,
    {
        let p = players[k];
        proof {
            lemma_ids_bytes_push(players@.take(k as int), p);
            assert(players@.take(k + 1) =~= players@.take(k as int).push(p));
        }
        push_u64_be(v, p.id);
        k = k + 1;
    }
    push_u64_be(v, g.total_elo());
    proof {
        assert(players@.take(players@.len() as int) =~= players@);
        assert(v@ =~= old(v)@ + group_bytes(*g));
    }
}

} // verus!
