//! The matchmaker state: the rating registry, the queue of waiting
//! players, and the store of formed matches, with the operations that
//! interpret a solver assignment against them.

use vstd::prelude::*;
use vstd::multiset::Multiset;
use vstd::seq_lib::group_to_multiset_ensures;

use std::collections::HashMap;

use crate::config::SlamConfig;
use crate::formulation::{abs_gap, build_formulation, Formulation, MAX_POLL_POOL};
use crate::group::{match_hash, Group, Match};
use crate::ids::{SlamId, SlamIdQueued};

verus! {

broadcast use group_to_multiset_ensures;

/// The default rating assigned to a freshly created player.
pub const DEFAULT_ELO: u64 = 100;

/// Largest allowed rating gap between two players on the same team.
pub const CLOSENESS_BOUND: u64 = 200;

/// The entries of `q` at the given positions, in the order given.
pub open spec fn entries_at(q: Seq<SlamIdQueued>, idxs: Seq<int>) -> Seq<SlamIdQueued> {
    Seq::new(idxs.len(), |j: int| q[idxs[j]])
}

/// Every position in `idxs` is a valid index into a sequence of length
/// `len`, and the positions strictly increase.
pub open spec fn increasing_in_range(idxs: Seq<int>, len: int) -> bool {
    &&& forall|j: int| 0 <= j < idxs.len() ==> 0 <= #[trigger] idxs[j] < len
    &&& forall|a: int, b: int| 0 <= a < b < idxs.len() ==> idxs[a] < idxs[b]
}

/// In a strictly increasing sequence, positions grow at least as fast
/// as their rank.
proof fn lemma_increasing_gap(idxs: Seq<int>, len: int, a: int, b: int)
    requires
        increasing_in_range(idxs, len),
        0 <= a <= b < idxs.len(),
    ensures
        idxs[b] >= idxs[a] + (b - a),
    decreases b - a,
{
    if a < b {
        lemma_increasing_gap(idxs, len, a, b - 1);
    }
}

/// Removing position `i` by swapping the last element into its place
/// removes exactly one occurrence of the element that stood there.
proof fn lemma_swap_remove_multiset<A>(s: Seq<A>, i: int)
    requires
        0 <= i < s.len(),
    ensures
        s.update(i, s.last()).drop_last().to_multiset() == s.to_multiset().remove(s[i]),
{
    let u = s.update(i, s.last());
    assert(u.drop_last() =~= u.remove(u.len() - 1));
    assert(u[u.len() - 1] == s.last());
    assert(u.remove(u.len() - 1).to_multiset() == u.to_multiset().remove(s.last()));
    assert(s.to_multiset().remove(s[i]).insert(s.last()).remove(s.last()) =~= s.to_multiset()
        .remove(s[i]));
}

/// The matchmaker: a rating registry (`db`), the queue of waiting
/// players, the store of formed matches keyed by their content hash,
/// and the configuration.
pub struct Slam {
    pub db: HashMap<u64, u64>,
    pub queue: Vec<SlamIdQueued>,
    pub ongoing_matches: HashMap<u64, Match>,
    pub config: SlamConfig,
}

impl Slam {
    pub fn new(config: SlamConfig) -> (r: Self)
        ensures
            r.db@ == Map::<u64, u64>::empty(),
            r.queue@ == Seq::<SlamIdQueued>::empty(),
            r.ongoing_matches@ == Map::<u64, Match>::empty(),
            r.config == config,
    {
        Slam { db: HashMap::new(), queue: Vec::new(), ongoing_matches: HashMap::new(), config }
    }

    /// Registers a freshly described player with the default rating;
    /// a repeated call overwrites, the most recent value wins.
    pub fn create_player(&mut self, id: u64) -> (r: SlamId)
        ensures
            r.id == id,
            final(self).db@ == old(self).db@.insert(id, DEFAULT_ELO),
            final(self).queue == old(self).queue,
            final(self).ongoing_matches == old(self).ongoing_matches,
            final(self).config == old(self).config,
    {
        let slam_id = SlamId::new(id);
        self.db.insert(id, DEFAULT_ELO);
        slam_id
    }

    /// Assigns or overwrites the rating for the given id; the most
    /// recent value wins.
    pub fn insert_player(&mut self, id: u64, elo: u64) -> (r: SlamId)
        ensures
            r.id == id,
            final(self).db@ == old(self).db@.insert(id, elo),
            final(self).queue == old(self).queue,
            final(self).ongoing_matches == old(self).ongoing_matches,
            final(self).config == old(self).config,
    {
        let slam_id = SlamId::new(id);
        self.db.insert(id, elo);
        slam_id
    }

    /// Appends an entry for the player to the queue; duplicates are
    /// permitted and each occurrence is matched independently.
    pub fn queue_player(&mut self, id: SlamId) -> (r: SlamIdQueued)
        ensures
            r.id == id.id,
            final(self).queue@ == old(self).queue@.push(r),
            final(self).db == old(self).db,
            final(self).ongoing_matches == old(self).ongoing_matches,
            final(self).config == old(self).config,
    {
        let queued_id = SlamIdQueued::new(id);
        self.queue.push(queued_id);
        queued_id
    }

    /// Indexes the match by its content-derived identifier; a
    /// structurally identical match overwrites the earlier entry.
    pub fn store_match(&mut self, matsh: Match)
        requires
            matsh.spec_g1().spec_players().len() <= u32::MAX,
            matsh.spec_g2().spec_players().len() <= u32::MAX,
        ensures
            final(self).ongoing_matches@ == old(self).ongoing_matches@.insert(
                match_hash(matsh),
                matsh,
            ),
            final(self).db == old(self).db,
            final(self).queue == old(self).queue,
            final(self).config == old(self).config,
    {
        let h = matsh.get_hash();
        self.ongoing_matches.insert(h, matsh);
    }

    /// Removes the queue entries at the given positions, processing
    /// them from highest to lowest and swapping the last live entry
    /// into each freed slot. Any other order would corrupt membership,
    /// because a swap removal invalidates every later position.
    pub fn remove_queue_indices(&mut self, idxs: &Vec<usize>)
        requires
            increasing_in_range(idxs@.map_values(|u: usize| u as int), old(self).queue@.len() as int),
        ensures
            final(self).queue@.len() == old(self).queue@.len() - idxs@.len(),
            final(self).queue@.to_multiset().add(
                entries_at(old(self).queue@, idxs@.map_values(|u: usize| u as int)).to_multiset(),
            ) == old(self).queue@.to_multiset(),
            final(self).db == old(self).db,
            final(self).ongoing_matches == old(self).ongoing_matches,
            final(self).config == old(self).config,
    {
        let ghost q0 = old(self).queue@;
        let ghost positions = idxs@.map_values(|u: usize| u as int);
        let n = idxs.len();
        let mut k = n;
        while k > 0
            invariant
                0 <= k <= n,
                n == idxs@.len(),
                positions == idxs@.map_values(|u: usize| u as int),
                increasing_in_range(positions, q0.len() as int),
                self.queue@.len() == q0.len() - (n - k),
                forall|j: int| 0 <= j < k ==> self.queue@[positions[j]] == q0[positions[j]],
                self.queue@.to_multiset().add(
                    entries_at(q0, positions.skip(k as int)).to_multiset(),
                ) == q0.to_multiset(),
                self.db == old(self).db,
                self.ongoing_matches == old(self).ongoing_matches,
                self.config == old(self).config,
            decreases k,
        {
            let idx = idxs[k - 1];
            proof {
                lemma_increasing_gap(positions, q0.len() as int, k - 1, n - 1);
                assert(positions[k - 1] + (n - k) <= positions[n - 1] < q0.len());
                assert(idx < self.queue@.len());
            }
            let ghost before = self.queue@;
            let ghost elem = before[idx as int];
            proof {
                lemma_swap_remove_multiset(before, idx as int);
            }
            self.queue.swap_remove(idx);
            proof {
                // One more removed entry accounted for: the skipped tail
                // grows by the entry at position k-1.
                assert(elem == q0[positions[k - 1]]);
                let tail_old = entries_at(q0, positions.skip(k as int));
                let tail_new = entries_at(q0, positions.skip(k as int - 1));
                assert(tail_new =~= seq![elem] + tail_old);
                assert(seq![elem] + tail_old =~= (Seq::<SlamIdQueued>::empty().push(
                    elem,
                )) + tail_old);
                vstd::seq_lib::lemma_multiset_commutative(
                    Seq::<SlamIdQueued>::empty().push(elem),
                    tail_old,
                );
                assert(Seq::<SlamIdQueued>::empty().to_multiset() =~= Multiset::<
                    SlamIdQueued,
                >::empty()) by {
                    assert forall|a: SlamIdQueued|
                        Seq::<SlamIdQueued>::empty().to_multiset().count(a) == 0 by {
                        assert(!Seq::<SlamIdQueued>::empty().contains(a));
                    }
                }
                assert(tail_new.to_multiset() =~= tail_old.to_multiset().insert(elem));
                assert(before.contains(elem));
                assert(before.to_multiset().count(elem) > 0);
                assert(self.queue@.to_multiset().add(tail_new.to_multiset())
                    =~= before.to_multiset().add(tail_old.to_multiset()));
                // Entries at positions below the removed one are untouched.
                assert forall|j: int| 0 <= j < k - 1 implies self.queue@[positions[j]]
                    == q0[positions[j]] by {
                    assert(positions[j] < positions[k - 1]);
                }
            }
            k = k - 1;
        }
        proof {
            assert(positions.skip(0) =~= positions);
        }
    }
}

/// Law: inserting the same rating for the same player twice leaves the
/// registry exactly as a single insert does.
pub proof fn lemma_insert_player_idempotent(db: Map<u64, u64>, id: u64, elo: u64)
    ensures
        db.insert(id, elo).insert(id, elo) == db.insert(id, elo),
{
    assert(db.insert(id, elo).insert(id, elo) =~= db.insert(id, elo));
}


/// Every queued player has a rating in the registry; matching treats a
/// missing entry as an invariant violation, so the operations that read
/// ratings require this.
pub open spec fn queue_in_db(db: Map<u64, u64>, q: Seq<SlamIdQueued>) -> bool {
    forall|k: int| 0 <= k < q.len() ==> db.contains_key(#[trigger] q[k].id)
}

/// The ratings of the queued players, in queue order.
pub open spec fn queue_ratings(db: Map<u64, u64>, q: Seq<SlamIdQueued>) -> Seq<u64> {
    Seq::new(q.len(), |k: int| db[q[k].id])
}

/// The positions of `s` holding value `v`, in increasing order. An
/// assignment gives each queue position a value: 0 for team A, 1 for
/// team B, anything else for unassigned.
pub open spec fn team_indices(s: Seq<u8>, v: u8) -> Seq<int>
    decreases s.len(),
{
    if s.len() == 0 {
        Seq::empty()
    } else if s.last() == v {
        team_indices(s.drop_last(), v).push(s.len() - 1)
    } else {
        team_indices(s.drop_last(), v)
    }
}

/// The positions assigned to either team, in increasing order.
pub open spec fn assigned_indices(s: Seq<u8>) -> Seq<int>
    decreases s.len(),
{
    if s.len() == 0 {
        Seq::empty()
    } else if s.last() <= 1 {
        assigned_indices(s.drop_last()).push(s.len() - 1)
    } else {
        assigned_indices(s.drop_last())
    }
}

/// The queue entries assigned to team `v`, in queue order.
pub open spec fn team_players(q: Seq<SlamIdQueued>, s: Seq<u8>, v: u8) -> Seq<SlamIdQueued> {
    entries_at(q, team_indices(s, v))
}

/// The rating sum of a list of players.
pub open spec fn sum_ratings(db: Map<u64, u64>, ps: Seq<SlamIdQueued>) -> int
    decreases ps.len(),
{
    if ps.len() == 0 {
        0
    } else {
        sum_ratings(db, ps.drop_last()) + db[ps.last().id]
    }
}

/// Every two players of the list are within the closeness bound of
/// each other.
pub open spec fn team_close(db: Map<u64, u64>, ps: Seq<SlamIdQueued>) -> bool {
    forall|j1: int, j2: int|
        0 <= j1 < j2 < ps.len() ==> abs_gap(db[ps[j1].id], db[ps[j2].id]) <= CLOSENESS_BOUND
}

/// What the matchmaker accepts of a solver assignment: one value per
/// queue entry, each team filled with exactly `n` entries, every
/// same-team pair within the closeness bound, both rating sums
/// representable, and the sums within half the bound of each other —
/// which bounds the average gap by `bound / (2n)` for teams of `n`.
pub open spec fn valid_assignment(db: Map<u64, u64>, q: Seq<SlamIdQueued>, s: Seq<u8>, n: int) -> bool {
    &&& s.len() == q.len()
    &&& team_indices(s, 0).len() == n
    &&& team_indices(s, 1).len() == n
    &&& team_close(db, team_players(q, s, 0))
    &&& team_close(db, team_players(q, s, 1))
    &&& sum_ratings(db, team_players(q, s, 0)) <= u64::MAX
    &&& sum_ratings(db, team_players(q, s, 1)) <= u64::MAX
    &&& -((CLOSENESS_BOUND / 2) as int) <= sum_ratings(db, team_players(q, s, 0)) - sum_ratings(
        db,
        team_players(q, s, 1),
    ) <= (CLOSENESS_BOUND / 2) as int
}

/// The positions of a team stand inside the assignment, strictly
/// increasing, and each holds the team's value.
pub proof fn lemma_team_indices_props(s: Seq<u8>, v: u8)
    ensures
        increasing_in_range(team_indices(s, v), s.len() as int),
        forall|j: int|
            0 <= j < team_indices(s, v).len() ==> s[#[trigger] team_indices(s, v)[j]] == v,
    decreases s.len(),
{
    if s.len() > 0 {
        lemma_team_indices_props(s.drop_last(), v);
        assert(forall|j: int|
            0 <= j < s.drop_last().len() ==> s.drop_last()[j] == s[j]);
    }
}

/// The assigned positions stand inside the assignment, strictly
/// increasing.
pub proof fn lemma_assigned_indices_props(s: Seq<u8>)
    ensures
        increasing_in_range(assigned_indices(s), s.len() as int),
    decreases s.len(),
{
    if s.len() > 0 {
        lemma_assigned_indices_props(s.drop_last());
    }
}

/// The two teams cannot outnumber the queue: their position lists are
/// disjoint subsets of the queue's positions.
pub proof fn lemma_team_counts(s: Seq<u8>)
    ensures
        team_indices(s, 0).len() + team_indices(s, 1).len() <= s.len(),
        assigned_indices(s).len() == team_indices(s, 0).len() + team_indices(s, 1).len(),
    decreases s.len(),
{
    if s.len() > 0 {
        lemma_team_counts(s.drop_last());
    }
}

/// Law: on a queue with fewer than `2n` entries no assignment is
/// valid, so no match can be formed.
pub proof fn lemma_short_queue_no_assignment(
    db: Map<u64, u64>,
    q: Seq<SlamIdQueued>,
    s: Seq<u8>,
    n: int,
)
    requires
        q.len() < 2 * n,
    ensures
        !valid_assignment(db, q, s, n),
{
    lemma_team_counts(s);
}

/// Law: the two teams of any assignment stand at disjoint queue
/// positions, so a formed match never consumes one queue entry twice.
pub proof fn lemma_teams_disjoint(s: Seq<u8>)
    ensures
        forall|a: int, b: int|
            0 <= a < team_indices(s, 0).len() && 0 <= b < team_indices(s, 1).len()
                ==> #[trigger] team_indices(s, 0)[a] != #[trigger] team_indices(s, 1)[b],
{
    lemma_team_indices_props(s, 0);
    lemma_team_indices_props(s, 1);
    assert forall|a: int, b: int|
        0 <= a < team_indices(s, 0).len() && 0 <= b < team_indices(s, 1).len()
            implies #[trigger] team_indices(s, 0)[a] != #[trigger] team_indices(s, 1)[b] by {
        assert(s[team_indices(s, 0)[a]] == 0);
        assert(s[team_indices(s, 1)[b]] == 1);
    }
}

/// Taken together, the assigned entries are exactly the two teams'
/// entries.
pub proof fn lemma_assigned_split(q: Seq<SlamIdQueued>, s: Seq<u8>)
    ensures
        entries_at(q, assigned_indices(s)).to_multiset() == entries_at(
            q,
            team_indices(s, 0),
        ).to_multiset().add(entries_at(q, team_indices(s, 1)).to_multiset()),
    decreases s.len(),
{
    if s.len() == 0 {
        assert(entries_at(q, assigned_indices(s)) =~= Seq::<SlamIdQueued>::empty());
        assert(entries_at(q, team_indices(s, 0)) =~= Seq::<SlamIdQueued>::empty());
        assert(entries_at(q, team_indices(s, 1)) =~= Seq::<SlamIdQueued>::empty());
        assert(entries_at(q, assigned_indices(s)).to_multiset() =~= entries_at(
            q,
            team_indices(s, 0),
        ).to_multiset().add(entries_at(q, team_indices(s, 1)).to_multiset()));
    } else {
        let sd = s.drop_last();
        lemma_assigned_split(q, sd);
        let e = q[s.len() - 1];
        let ad = entries_at(q, assigned_indices(sd));
        let t0d = entries_at(q, team_indices(sd, 0));
        let t1d = entries_at(q, team_indices(sd, 1));
        if s.last() == 0 {
            assert(entries_at(q, assigned_indices(s)) =~= ad.push(e));
            assert(entries_at(q, team_indices(s, 0)) =~= t0d.push(e));
            assert(entries_at(q, team_indices(s, 1)) =~= t1d);
            assert(ad.push(e).to_multiset() =~= t0d.push(e).to_multiset().add(t1d.to_multiset()));
        } else if s.last() == 1 {
            assert(entries_at(q, assigned_indices(s)) =~= ad.push(e));
            assert(entries_at(q, team_indices(s, 0)) =~= t0d);
            assert(entries_at(q, team_indices(s, 1)) =~= t1d.push(e));
            assert(ad.push(e).to_multiset() =~= t0d.to_multiset().add(t1d.push(e).to_multiset()));
        } else {
            assert(entries_at(q, assigned_indices(s)) =~= ad);
            assert(entries_at(q, team_indices(s, 0)) =~= t0d);
            assert(entries_at(q, team_indices(s, 1)) =~= t1d);
        }
    }
}

/// Law: a valid assignment is fair: every same-team pair is within the
/// closeness bound, and the teams' rating sums are within half the
/// bound of each other, so the team averages differ by at most
/// `bound / (2n)`.
pub proof fn lemma_valid_assignment_fair(
    db: Map<u64, u64>,
    q: Seq<SlamIdQueued>,
    s: Seq<u8>,
    n: int,
)
    requires
        valid_assignment(db, q, s, n),
    ensures
        team_close(db, team_players(q, s, 0)),
        team_close(db, team_players(q, s, 1)),
        -((CLOSENESS_BOUND / 2) as int) <= sum_ratings(db, team_players(q, s, 0)) - sum_ratings(
            db,
            team_players(q, s, 1),
        ) <= (CLOSENESS_BOUND / 2) as int,
{
}


impl Slam {
    /// Builds the optimization problem for the current queue and
    /// ratings. The solve itself is outside work: a caller solves the
    /// returned problem and hands the resulting assignment to
    /// `apply_assignment`, which checks it before touching the queue.
    pub fn formulate(&self) -> (r: Formulation)
        requires
            self.config.wf(),
            1 <= self.queue@.len() <= MAX_POLL_POOL,
            queue_in_db(self.db@, self.queue@),
        ensures
            r.num_players == self.queue@.len(),
            r.group_size == self.config.group_size,
            r.vars@ == crate::formulation::formulation_vars(self.queue@.len() as int),
            crate::formulation::cons_models(r.constraints@) == crate::formulation::formulation_cons(
                queue_ratings(self.db@, self.queue@),
                self.config.group_size as int,
            ),
    {
        let i = self.queue.len();
        let ghost rt = queue_ratings(self.db@, self.queue@);
        let mut ratings: Vec<u64> = Vec::new();
        let mut k: usize = 0;
        while k < i
            invariant
                i == self.queue@.len(),
                queue_in_db(self.db@, self.queue@),
                rt == queue_ratings(self.db@, self.queue@),
                0 <= k <= i,
                ratings@.len() == k,
                forall|j: int| 0 <= j < k ==> ratings@[j] == rt[j],
            decreases i - k,
        {
            let entry = self.queue[k];
            let rat = match self.db.get(&entry.id) {
                Some(v) => *v,
                None => {
                    proof {
                        assert(self.db@.contains_key(self.queue@[k as int].id));
                    }
                    vstd::pervasive::unreached()
                },
            };
            ratings.push(rat);
            k = k + 1;
        }
        proof {
            assert(ratings@ =~= rt);
        }
        build_formulation(&ratings, self.config.group_size)
    }

    /// Interprets a solver assignment against the queue: checks that it
    /// fills both teams, respects the closeness bound and the fairness
    /// band, and only then removes the matched entries (highest
    /// position first) and builds the match. An assignment that fails
    /// any check leaves the queue untouched and forms no match, so
    /// nothing a solver returns can corrupt the state.
    pub fn apply_assignment(&mut self, assignment: &Vec<u8>) -> (r: Option<Match>)
        requires
            old(self).config.wf(),
            queue_in_db(old(self).db@, old(self).queue@),
        ensures
            final(self).db == old(self).db,
            final(self).ongoing_matches == old(self).ongoing_matches,
            final(self).config == old(self).config,
            (r is Some) <==> valid_assignment(
                old(self).db@,
                old(self).queue@,
                assignment@,
                old(self).config.group_size as int,
            ),
            r is None ==> final(self).queue == old(self).queue,
            (r matches Some(m) ==> {
                let db = old(self).db@;
                let q = old(self).queue@;
                let s = assignment@;
                &&& m.spec_g1().spec_players() == team_players(q, s, 0)
                &&& m.spec_g2().spec_players() == team_players(q, s, 1)
                &&& m.spec_g1().spec_total_elo() == sum_ratings(db, team_players(q, s, 0))
                &&& m.spec_g2().spec_total_elo() == sum_ratings(db, team_players(q, s, 1))
                &&& m.spec_g1().spec_players().len() == old(self).config.group_size
                &&& m.spec_g2().spec_players().len() == old(self).config.group_size
                &&& final(self).queue@.len() + 2 * (old(self).config.group_size as int) == q.len()
                &&& final(self).queue@.to_multiset().add(
                    m.spec_g1().spec_players().to_multiset(),
                ).add(m.spec_g2().spec_players().to_multiset()) == q.to_multiset()
            }),
            old(self).queue@.len() < 2 * (old(self).config.group_size as int) ==> r is None,
    {
        let ghost db = self.db@;
        let ghost q = self.queue@;
        let ghost s = assignment@;
        let n = self.config.group_size as usize;
        let i = self.queue.len();
        proof {
            lemma_team_counts(s);
        }
        if assignment.len() != i {
            return None;
        }
        let mut a_idx: Vec<usize> = Vec::new();
        let mut b_idx: Vec<usize> = Vec::new();
        let mut all_idx: Vec<usize> = Vec::new();
        let mut a_players: Vec<SlamIdQueued> = Vec::new();
        let mut b_players: Vec<SlamIdQueued> = Vec::new();
        let mut k: usize = 0;
        while k < i
            invariant
                i == q.len(),
                s.len() == q.len(),
                q == self.queue@,
                s == assignment@,
                0 <= k <= i,
                a_idx@.map_values(|u: usize| u as int) == team_indices(s.take(k as int), 0),
                b_idx@.map_values(|u: usize| u as int) == team_indices(s.take(k as int), 1),
                all_idx@.map_values(|u: usize| u as int) == assigned_indices(s.take(k as int)),
                a_players@ == entries_at(q, team_indices(s.take(k as int), 0)),
                b_players@ == entries_at(q, team_indices(s.take(k as int), 1)),
            decreases i - k,
        {
            let v = assignment[k];
            proof {
                assert(s.take(k + 1).drop_last() =~= s.take(k as int));
                assert(s.take(k + 1).last() == s[k as int]);
            }
            if v == 0 {
                a_idx.push(k);
                all_idx.push(k);
                a_players.push(self.queue[k]);
            } else if v == 1 {
                b_idx.push(k);
                all_idx.push(k);
                b_players.push(self.queue[k]);
            }
            proof {
                assert(a_idx@.map_values(|u: usize| u as int) =~= team_indices(
                    s.take(k + 1),
                    0,
                ));
                assert(b_idx@.map_values(|u: usize| u as int) =~= team_indices(
                    s.take(k + 1),
                    1,
                ));
                assert(all_idx@.map_values(|u: usize| u as int) =~= assigned_indices(
                    s.take(k + 1),
                ));
                assert(a_players@ =~= entries_at(q, team_indices(s.take(k + 1), 0)));
                assert(b_players@ =~= entries_at(q, team_indices(s.take(k + 1), 1)));
            }
            k = k + 1;
        }
        proof {
            assert(s.take(i as int) =~= s);
        }
        if a_idx.len() != n || b_idx.len() != n {
            return None;
        }
        proof {
            lemma_team_indices_props(s, 0);
            lemma_team_indices_props(s, 1);
            assert forall|j: int| 0 <= j < a_players@.len() implies db.contains_key(
                #[trigger] a_players@[j].id,
            ) by {
                assert(a_players@[j] == q[team_indices(s, 0)[j]]);
            }
            assert forall|j: int| 0 <= j < b_players@.len() implies db.contains_key(
                #[trigger] b_players@[j].id,
            ) by {
                assert(b_players@[j] == q[team_indices(s, 1)[j]]);
            }
        }
        let a_ratings = self.collect_ratings(&a_players);
        let b_ratings = self.collect_ratings(&b_players);
        if !pairs_within_bound(&a_ratings) {
            proof {
                let (w1, w2) = choose|w1: int, w2: int|
                    0 <= w1 < w2 < a_ratings@.len() && abs_gap(a_ratings@[w1], a_ratings@[w2])
                        > CLOSENESS_BOUND;
                assert(abs_gap(db[a_players@[w1].id], db[a_players@[w2].id]) > CLOSENESS_BOUND);
                assert(!team_close(db, team_players(q, s, 0)));
            }
            return None;
        }
        if !pairs_within_bound(&b_ratings) {
            proof {
                let (w1, w2) = choose|w1: int, w2: int|
                    0 <= w1 < w2 < b_ratings@.len() && abs_gap(b_ratings@[w1], b_ratings@[w2])
                        > CLOSENESS_BOUND;
                assert(abs_gap(db[b_players@[w1].id], db[b_players@[w2].id]) > CLOSENESS_BOUND);
                assert(!team_close(db, team_players(q, s, 1)));
            }
            return None;
        }
        proof {
            assert forall|j1: int, j2: int| 0 <= j1 < j2 < a_players@.len() implies abs_gap(
                db[a_players@[j1].id],
                db[a_players@[j2].id],
            ) <= CLOSENESS_BOUND by {
                assert(a_ratings@[j1] == db[a_players@[j1].id]);
                assert(a_ratings@[j2] == db[a_players@[j2].id]);
                assert(abs_gap(a_ratings@[j1], a_ratings@[j2]) <= CLOSENESS_BOUND);
            }
            assert forall|j1: int, j2: int| 0 <= j1 < j2 < b_players@.len() implies abs_gap(
                db[b_players@[j1].id],
                db[b_players@[j2].id],
            ) <= CLOSENESS_BOUND by {
                assert(b_ratings@[j1] == db[b_players@[j1].id]);
                assert(b_ratings@[j2] == db[b_players@[j2].id]);
                assert(abs_gap(b_ratings@[j1], b_ratings@[j2]) <= CLOSENESS_BOUND);
            }
            assert(team_close(db, team_players(q, s, 0)));
            assert(team_close(db, team_players(q, s, 1)));
        }
        let sum_a = sum_u128(&a_ratings);
        let sum_b = sum_u128(&b_ratings);
        proof {
            lemma_sum_ratings_by_values(db, a_players@, a_ratings@);
            lemma_sum_ratings_by_values(db, b_players@, b_ratings@);
        }
        if sum_a > u64::MAX as u128 || sum_b > u64::MAX as u128 {
            return None;
        }
        let gap = if sum_a >= sum_b {
            sum_a - sum_b
        } else {
            sum_b - sum_a
        };
        if gap > (CLOSENESS_BOUND / 2) as u128 {
            return None;
        }
        proof {
            lemma_assigned_indices_props(s);
        }
        self.remove_queue_indices(&all_idx);
        proof {
            lemma_assigned_split(q, s);
        }
        let g1 = Group::new(a_players, sum_a as u64);
        let g2 = Group::new(b_players, sum_b as u64);
        Some(Match::new(g1, g2))
    }

    /// The ratings of the given players, read from the registry.
    fn collect_ratings(&self, players: &Vec<SlamIdQueued>) -> (r: Vec<u64>)
        requires
            forall|j: int|
                0 <= j < players@.len() ==> self.db@.contains_key(#[trigger] players@[j].id),
        ensures
            r@.len() == players@.len(),
            forall|j: int| 0 <= j < r@.len() ==> r@[j] == self.db@[#[trigger] players@[j].id],
    {
        let mut out: Vec<u64> = Vec::new();
        let mut k: usize = 0;
        while k < players.len()
            invariant
                forall|j: int|
                    0 <= j < players@.len() ==> self.db@.contains_key(#[trigger] players@[j].id),
                0 <= k <= players@.len(),
                out@.len() == k,
                forall|j: int| 0 <= j < k ==> out@[j] == self.db@[#[trigger] players@[j].id],
            decreases players@.len() - k,
        {
            let entry = players[k];
            let rat = match self.db.get(&entry.id) {
                Some(v) => *v,
                None => {
                    proof {
                        assert(self.db@.contains_key(players@[k as int].id));
                    }
                    vstd::pervasive::unreached()
                },
            };
            out.push(rat);
            k = k + 1;
        }
        out
    }
}

/// The rating sum of a player list is the sum of the ratings read for
/// it.
proof fn lemma_sum_ratings_by_values(db: Map<u64, u64>, ps: Seq<SlamIdQueued>, rs: Seq<u64>)
    requires
        rs.len() == ps.len(),
        forall|j: int| 0 <= j < rs.len() ==> rs[j] == db[#[trigger] ps[j].id],
    ensures
        sum_ratings(db, ps) == sum_values(rs),
    decreases ps.len(),
{
    if ps.len() > 0 {
        lemma_sum_ratings_by_values(db, ps.drop_last(), rs.drop_last());
    }
}

/// The sum of a rating list.
pub open spec fn sum_values(rs: Seq<u64>) -> int
    decreases rs.len(),
{
    if rs.len() == 0 {
        0
    } else {
        sum_values(rs.drop_last()) + rs.last()
    }
}

/// Whether every two of the listed ratings are within the closeness
/// bound of each other.
#[verifier::loop_isolation(false)]
fn pairs_within_bound(rs: &Vec<u64>) -> (r: bool)
    ensures
        r == forall|j1: int, j2: int|
            0 <= j1 < j2 < rs@.len() ==> abs_gap(rs@[j1], rs@[j2]) <= CLOSENESS_BOUND,
{
    let m = rs.len();
    let mut j1: usize = 0;
    while j1 < m
        invariant
            0 <= j1 <= m,
            forall|a: int, b: int| 0 <= a < b < m && a < j1 ==> abs_gap(rs@[a], rs@[b])
                <= CLOSENESS_BOUND,
        decreases m - j1,
    {
        let mut j2: usize = j1 + 1;
        while j2 < m
            invariant
                0 <= j1 < m,
                j1 < j2 <= m,
                forall|a: int, b: int| 0 <= a < b < m && a < j1 ==> abs_gap(rs@[a], rs@[b])
                    <= CLOSENESS_BOUND,
                forall|b: int| j1 < b < j2 ==> abs_gap(rs@[j1 as int], rs@[b]) <= CLOSENESS_BOUND,
            decreases m - j2,
        {
            let r1 = rs[j1];
            let r2 = rs[j2];
            let gap = if r1 >= r2 {
                r1 - r2
            } else {
                r2 - r1
            };
            if gap > CLOSENESS_BOUND {
                proof {
                    assert(abs_gap(rs@[j1 as int], rs@[j2 as int]) > CLOSENESS_BOUND);
                    assert(!(forall|a: int, b: int|
                        0 <= a < b < rs@.len() ==> abs_gap(rs@[a], rs@[b]) <= CLOSENESS_BOUND));
                }
                return false;
            }
            j2 = j2 + 1;
        }
        j1 = j1 + 1;
    }
    true
}

/// The sum of the listed ratings, wide enough that no list of team
/// size can overflow it.
#[verifier::loop_isolation(false)]
fn sum_u128(rs: &Vec<u64>) -> (r: u128)
    requires
        rs@.len() <= 0xffff,
    ensures
        r as int == sum_values(rs@),
{
    let m = rs.len();
    let mut acc: u128 = 0;
    let mut k: usize = 0;
    while k < m
        invariant
            0 <= k <= m,
            acc as int == sum_values(rs@.take(k as int)),
            acc as int <= k * 0xffffffffffffffff,
        decreases m - k,
    {
        proof {
            assert(rs@.take(k + 1).drop_last() =~= rs@.take(k as int));
        }
        acc = acc + (rs[k] as u128);
        k = k + 1;
    }
    proof {
        assert(rs@.take(m as int) =~= rs@);
    }
    acc
}

} // verus!
