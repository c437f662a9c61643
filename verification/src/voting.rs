//! Night attacks, votes and the move from one phase to the next.

use vstd::prelude::*;
use vstd::string::StringExecFns;
use crate::chat::is_system_message;
use crate::game::{vote_view, Game, GamePhase, NightActions, TallyView, Vote, add_vote, apply_attacks, has_voted, is_last_max, mark_dead, next_phase, next_phase_spec, phase_debug_name, phase_message, phase_name, tally_index, tally_view, tally_wf};
use crate::player::{Player, first_index_of, find_player_index, has_player, lemma_first_index_of};
use crate::support::str_eq;

verus! {

/// Index of the entry with the most voters, the last one on a tie; -1 when
/// nobody voted.
pub open spec fn last_max_index(tally: TallyView) -> int
    decreases tally.len(),
{
    if tally.len() == 0 {
        -1
    } else {
        let k = last_max_index(tally.drop_last());
        if k < 0 || tally.last().1.len() >= tally[k].1.len() {
            tally.len() - 1
        } else {
            k
        }
    }
}

pub proof fn lemma_last_max_index(tally: TallyView)
    ensures
        tally.len() == 0 <==> last_max_index(tally) == -1,
        tally.len() > 0 ==> is_last_max(tally, last_max_index(tally)),
    decreases tally.len(),
{
    if tally.len() > 0 {
        let init = tally.drop_last();
        lemma_last_max_index(init);
        assert forall|j: int| 0 <= j < init.len() implies init[j] == tally[j] by {}
    }
}

pub proof fn lemma_tally_index(tally: TallyView, target: Seq<char>)
    ensures
        -1 <= tally_index(tally, target) < tally.len(),
        tally_index(tally, target) >= 0 ==> tally[tally_index(tally, target)].0 == target,
        forall|j: int|
            0 <= j < tally.len() && (tally_index(tally, target) < 0 || j < tally_index(
                tally,
                target,
            )) ==> (#[trigger] tally[j]).0 != target,
    decreases tally.len(),
{
    if tally.len() > 0 {
        let init = tally.drop_last();
        lemma_tally_index(init, target);
        assert forall|j: int| 0 <= j < init.len() implies init[j] == tally[j] by {}
    }
}

/// Two player lists that differ at most in who is dead.
pub open spec fn same_but_deaths(a: Seq<Player>, b: Seq<Player>) -> bool {
    &&& a.len() == b.len()
    &&& forall|i: int|
        0 <= i < a.len() ==> (#[trigger] a[i]).id == b[i].id && a[i].name == b[i].name
            && a[i].role == b[i].role && a[i].is_ready == b[i].is_ready
}

pub proof fn lemma_first_index_same_ids(a: Seq<Player>, b: Seq<Player>, id: Seq<char>)
    requires
        same_but_deaths(a, b),
    ensures
        first_index_of(a, id) == first_index_of(b, id),
    decreases a.len(),
{
    if a.len() > 0 {
        lemma_first_index_same_ids(a.drop_last(), b.drop_last(), id);
    }
}

/// After the attacks, a player is dead exactly when it was dead before or it
/// is the first player holding an attacked id; nothing else changes.
pub proof fn lemma_apply_attacks(players: Seq<Player>, attacks: Seq<Seq<char>>)
    ensures
        same_but_deaths(players, apply_attacks(players, attacks)),
        forall|i: int|
            0 <= i < players.len() ==> ((#[trigger] apply_attacks(players, attacks)[i]).is_dead
                <==> (players[i].is_dead || exists|k: int|
                0 <= k < attacks.len() && first_index_of(players, #[trigger] attacks[k]) == i)),
    decreases attacks.len(),
{
    if attacks.len() > 0 {
        let init = attacks.drop_last();
        lemma_apply_attacks(players, init);
        let before = apply_attacks(players, init);
        lemma_first_index_same_ids(players, before, attacks.last());
        lemma_first_index_of(before, attacks.last());
        let after = apply_attacks(players, attacks);
        assert forall|i: int| 0 <= i < players.len() implies ((#[trigger] after[i]).is_dead <==> (
        players[i].is_dead || exists|k: int|
            0 <= k < attacks.len() && first_index_of(players, #[trigger] attacks[k]) == i)) by {
            if after[i].is_dead && !players[i].is_dead {
                if !before[i].is_dead {
                    assert(first_index_of(players, attacks[attacks.len() - 1]) == i);
                } else {
                    let k = choose|k: int|
                        0 <= k < init.len() && first_index_of(players, #[trigger] init[k]) == i;
                    assert(attacks[k] == init[k]);
                }
            }
            if exists|k: int|
                0 <= k < attacks.len() && first_index_of(players, #[trigger] attacks[k]) == i {
                let k = choose|k: int|
                    0 <= k < attacks.len() && first_index_of(players, #[trigger] attacks[k]) == i;
                if k < init.len() {
                    assert(init[k] == attacks[k]);
                }
            }
        }
    }
}

/// Finds the tally entry of `target`.
pub(crate) fn find_vote_index(votes: &Vec<Vote>, target: &str) -> (r: Option<usize>)
    ensures
        match r {
            Some(k) => k == tally_index(tally_view(votes@), target@),
            None => tally_index(tally_view(votes@), target@) == -1,
        },
{
    let ghost t = tally_view(votes@);
    proof {
        lemma_tally_index(t, target@);
    }
    let n = votes.len();
    let mut i: usize = 0;
    while i < n
        invariant
            n == votes@.len(),
            t == tally_view(votes@),
            i <= n,
            forall|j: int| 0 <= j < i ==> (#[trigger] t[j]).0 != target@,
            -1 <= tally_index(t, target@) < t.len(),
            tally_index(t, target@) >= 0 ==> t[tally_index(t, target@)].0 == target@,
            forall|j: int|
                0 <= j < t.len() && (tally_index(t, target@) < 0 || j < tally_index(t, target@))
                    ==> (#[trigger] t[j]).0 != target@,
        decreases n - i,
    {
        assert(t[i as int].0 == votes@[i as int].target_id@);
        if str_eq(votes[i].target_id.as_str(), target) {
            return Some(i);
        }
        i += 1;
    }
    None
}

/// Whether `voter` appears among the voters of some entry.
fn voted(votes: &Vec<Vote>, voter: &str) -> (r: bool)
    ensures
        r == has_voted(tally_view(votes@), voter@),
{
    let ghost t = tally_view(votes@);
    let n = votes.len();
    let mut i: usize = 0;
    while i < n
        invariant
            n == votes@.len(),
            t == tally_view(votes@),
            i <= n,
            forall|a: int, b: int| 0 <= a < i && 0 <= b < t[a].1.len() ==> #[trigger] t[a].1[b] != voter@,
        decreases n - i,
    {
        let voters = &votes[i].voters;
        let m = voters.len();
        let mut j: usize = 0;
        while j < m
            invariant
                m == voters@.len(),
                voters == &votes@[i as int].voters,
                t == tally_view(votes@),
                i < n,
                n == votes@.len(),
                j <= m,
                forall|b: int| 0 <= b < j ==> #[trigger] t[i as int].1[b] != voter@,
            decreases m - j,
        {
            assert(t[i as int].1[j as int] == voters@[j as int]@);
            if str_eq(voters[j].as_str(), voter) {
                return true;
            }
            j += 1;
        }
        i += 1;
    }
    false
}

impl Game {
    /// Registers a werewolf attack on `target_id`.
    pub fn register_attack(&mut self, target_id: &str) -> (r: Result<(), String>)
        ensures
            match r {
                Err(e) => !has_player(old(self).players@, target_id@) && e@
                    == "Target player not found"@ && *final(self) == *old(self),
                Ok(()) => has_player(old(self).players@, target_id@)
                    && final(self).night_actions.attacks@.map_values(|s: String| s@)
                    == old(self).night_actions.attacks@.map_values(|s: String| s@).push(
                    target_id@,
                ) && *final(self) == (Game { night_actions: final(self).night_actions, ..*old(self) }),
            },
    {
        proof {
            lemma_first_index_of(self.players@, target_id@);
        }
        if find_player_index(&self.players, target_id).is_none() {
            return Err("Target player not found".to_owned());
        }
        self.night_actions.attacks.push(target_id.to_owned());
        assert(self.night_actions.attacks@.map_values(|s: String| s@)
            =~= old(self).night_actions.attacks@.map_values(|s: String| s@).push(target_id@));
        Ok(())
    }

    /// Kills the attacked players and forgets the night's attacks.
    pub fn resolve_night_actions(&mut self)
        ensures
            final(self).players@ == apply_attacks(
                old(self).players@,
                old(self).night_actions.attacks@.map_values(|s: String| s@),
            ),
            final(self).night_actions.attacks@.len() == 0,
            final(self).same_setup(&*old(self)),
            final(self).phase == old(self).phase,
            final(self).day_count == old(self).day_count,
            final(self).vote_results == old(self).vote_results,
            final(self).chat_log == old(self).chat_log,
            final(self).phase_started_at == old(self).phase_started_at,
    {
        let ghost attacks = self.night_actions.attacks@.map_values(|s: String| s@);
        let n = self.night_actions.attacks.len();
        let mut i: usize = 0;
        while i < n
            invariant
                n == self.night_actions.attacks@.len(),
                attacks == self.night_actions.attacks@.map_values(|s: String| s@),
                self.night_actions == old(self).night_actions,
                i <= n,
                self.players@ == apply_attacks(old(self).players@, attacks.take(i as int)),
                self.same_setup(&*old(self)),
                self.phase == old(self).phase,
                self.day_count == old(self).day_count,
                self.vote_results == old(self).vote_results,
                self.chat_log == old(self).chat_log,
                self.phase_started_at == old(self).phase_started_at,
            decreases n - i,
        {
            let found = find_player_index(&self.players, self.night_actions.attacks[i].as_str());
            proof {
                lemma_first_index_of(self.players@, attacks[i as int]);
                assert(attacks.take(i + 1).drop_last() =~= attacks.take(i as int));
            }
            if let Some(k) = found {
                self.players[k].is_dead = true;
            }
            assert(self.players@ =~= apply_attacks(old(self).players@, attacks.take(i + 1)));
            i += 1;
        }
        assert(attacks.take(n as int) =~= attacks);
        self.night_actions = NightActions { attacks: Vec::new() };
    }

    /// Records `voter_id`'s vote for `target_id`.
    pub fn cast_vote(&mut self, voter_id: &str, target_id: &str) -> (r: Result<(), String>)
        ensures
            !has_player(old(self).players@, voter_id@) ==> r == Err::<(), String>(r->Err_0) && r->Err_0@
                == "Voter not found"@,
            has_player(old(self).players@, voter_id@) && !has_player(old(self).players@, target_id@)
                ==> r is Err && r->Err_0@ == "Vote target not found"@,
            has_player(old(self).players@, voter_id@) && has_player(old(self).players@, target_id@)
                && old(self).players@[first_index_of(old(self).players@, voter_id@)].is_dead
                ==> r is Err && r->Err_0@ == "Dead players cannot vote"@,
            has_player(old(self).players@, voter_id@) && has_player(old(self).players@, target_id@)
                && !old(self).players@[first_index_of(old(self).players@, voter_id@)].is_dead
                && has_voted(tally_view(old(self).vote_results@), voter_id@) ==> r is Err
                && r->Err_0@ == "Already voted"@,
            r is Err ==> *final(self) == *old(self),
            r is Ok <==> (has_player(old(self).players@, voter_id@) && has_player(
                old(self).players@,
                target_id@,
            ) && !old(self).players@[first_index_of(old(self).players@, voter_id@)].is_dead
                && !has_voted(tally_view(old(self).vote_results@), voter_id@)),
            r is Ok ==> tally_view(final(self).vote_results@) == add_vote(
                tally_view(old(self).vote_results@),
                voter_id@,
                target_id@,
            ) && *final(self) == (Game { vote_results: final(self).vote_results, ..*old(self) }),
            tally_wf(tally_view(old(self).vote_results@)) ==> tally_wf(
                tally_view(final(self).vote_results@),
            ),
    {
        proof {
            lemma_first_index_of(self.players@, voter_id@);
            lemma_first_index_of(self.players@, target_id@);
        }
        let voter_index = match find_player_index(&self.players, voter_id) {
            Some(i) => i,
            None => return Err("Voter not found".to_owned()),
        };
        if find_player_index(&self.players, target_id).is_none() {
            return Err("Vote target not found".to_owned());
        }
        if self.players[voter_index].is_dead {
            return Err("Dead players cannot vote".to_owned());
        }
        if voted(&self.vote_results, voter_id) {
            return Err("Already voted".to_owned());
        }
        let ghost t = tally_view(self.vote_results@);
        proof {
            lemma_tally_index(t, target_id@);
        }
        match find_vote_index(&self.vote_results, target_id) {
            Some(k) => {
                let ghost before = self.vote_results@[k as int].voters@;
                self.vote_results[k].voters.push(voter_id.to_owned());
                assert(self.vote_results@[k as int].voters@.map_values(|s: String| s@)
                    =~= before.map_values(|s: String| s@).push(voter_id@));
                assert(tally_view(self.vote_results@) =~= add_vote(t, voter_id@, target_id@));
            },
            None => {
                let mut voters: Vec<String> = Vec::new();
                voters.push(voter_id.to_owned());
                assert(voters@.map_values(|s: String| s@) =~= seq![voter_id@]);
                let vote = Vote { target_id: target_id.to_owned(), voters };
                assert(vote_view(vote) == (target_id@, seq![voter_id@]));
                self.vote_results.push(vote);
                assert(tally_view(self.vote_results@).drop_last() =~= t);
                assert(tally_view(self.vote_results@) =~= add_vote(t, voter_id@, target_id@));
            },
        }
        proof {
            lemma_add_vote_wf(t, voter_id@, target_id@);
        }
        Ok(())
    }

    /// The target with the most votes (the last one listed on a tie) and its
    /// number of votes.
    pub fn count_votes(&self) -> (r: Option<(String, usize)>)
        ensures
            r is None <==> self.vote_results@.len() == 0,
            r is Some ==> {
                let t = tally_view(self.vote_results@);
                let k = last_max_index(t);
                &&& is_last_max(t, k)
                &&& r->Some_0.0@ == t[k].0
                &&& r->Some_0.1 == t[k].1.len()
            },
    {
        let ghost t = tally_view(self.vote_results@);
        proof {
            lemma_last_max_index(t);
        }
        let n = self.vote_results.len();
        if n == 0 {
            return None;
        }
        let mut best: usize = 0;
        let mut i: usize = 1;
        assert(t.take(1).drop_last() =~= t.take(0));
        assert(last_max_index(t.take(0)) == -1);
        assert(last_max_index(t.take(1)) == 0);
        while i < n
            invariant
                n == self.vote_results@.len(),
                t == tally_view(self.vote_results@),
                1 <= i <= n,
                best < i,
                best == last_max_index(t.take(i as int)),
            decreases n - i,
        {
            assert(t.take(i + 1).drop_last() =~= t.take(i as int));
            assert(t.take(i as int)[best as int] == t[best as int]);
            if self.vote_results[i].voters.len() >= self.vote_results[best].voters.len() {
                best = i;
            }
            i += 1;
        }
        assert(t.take(n as int) =~= t);
        Some((self.vote_results[best].target_id.clone(), self.vote_results[best].voters.len()))
    }

    /// Executes the most-voted player and clears the votes.
    pub fn resolve_voting(&mut self)
        ensures
            final(self).players@ == (if old(self).vote_results@.len() == 0 {
                old(self).players@
            } else {
                mark_dead(
                    old(self).players@,
                    first_index_of(
                        old(self).players@,
                        tally_view(old(self).vote_results@)[last_max_index(
                            tally_view(old(self).vote_results@),
                        )].0,
                    ),
                )
            }),
            final(self).vote_results@.len() == 0,
            final(self).same_setup(&*old(self)),
            final(self).phase == old(self).phase,
            final(self).day_count == old(self).day_count,
            final(self).night_actions == old(self).night_actions,
            final(self).chat_log == old(self).chat_log,
            final(self).phase_started_at == old(self).phase_started_at,
    {
        if let Some((target, _count)) = self.count_votes() {
            proof {
                lemma_first_index_of(self.players@, target@);
            }
            if let Some(k) = find_player_index(&self.players, target.as_str()) {
                self.players[k].is_dead = true;
            }
            assert(self.players@ =~= mark_dead(
                old(self).players@,
                first_index_of(old(self).players@, target@),
            ));
        }
        self.vote_results.clear();
    }

    /// Moves the game to its next phase: resolves the night's attacks when
    /// leaving Night, the vote when leaving Voting, and starts a new day when
    /// leaving Result. Returns the phases left and entered.
    pub fn advance_phase(&mut self) -> (r: Result<(GamePhase, GamePhase), String>)
        requires
            old(self).phase == GamePhase::Result ==> old(self).day_count < u32::MAX,
        ensures
            old(self).phase == GamePhase::Finished <==> r is Err,
            r is Err ==> r->Err_0@ == "ゲームは既に終了しています"@ && *final(self) == *old(self),
            r is Ok ==> phase_advanced(*old(self), *final(self), r->Ok_0.0, r->Ok_0.1),
    {
        let current = self.phase;
        let next = match next_phase(current) {
            Some(p) => p,
            None => return Err("ゲームは既に終了しています".to_owned()),
        };
        if current == GamePhase::Night {
            self.resolve_night_actions();
        } else if current == GamePhase::Voting {
            self.resolve_voting();
        } else if current == GamePhase::Result {
            self.advance_to_next_day();
        }
        self.add_phase_change_message(current, next);
        self.phase = next;
        Ok((current, next))
    }
}

/// `after` is `before` moved from phase `from` to phase `to`: the night's
/// attacks resolved when leaving Night, the vote when leaving Voting, a new
/// day begun when leaving Result, and the change announced.
pub open spec fn phase_advanced(before: Game, after: Game, from: GamePhase, to: GamePhase) -> bool {
    &&& from == before.phase
    &&& next_phase_spec(from) == Some(to)
    &&& after.phase == to
    &&& after.day_count == before.day_count + (if from == GamePhase::Result {
        1int
    } else {
        0int
    })
    &&& after.players@ == (if from == GamePhase::Night {
        apply_attacks(
            before.players@,
            before.night_actions.attacks@.map_values(|s: String| s@),
        )
    } else if from == GamePhase::Voting && before.vote_results@.len() > 0 {
        mark_dead(
            before.players@,
            first_index_of(
                before.players@,
                tally_view(before.vote_results@)[last_max_index(
                    tally_view(before.vote_results@),
                )].0,
            ),
        )
    } else {
        before.players@
    })
    &&& from == GamePhase::Night ==> after.night_actions.attacks@.len() == 0
    &&& from != GamePhase::Night ==> after.night_actions == before.night_actions
    &&& from == GamePhase::Voting ==> after.vote_results@.len() == 0
    &&& from != GamePhase::Voting ==> after.vote_results == before.vote_results
    &&& after.chat_log.messages@.drop_last() == before.chat_log.messages@
    &&& after.chat_log.messages@.len() == before.chat_log.messages@.len() + 1
    &&& is_system_message(
        after.chat_log.messages@.last(),
        phase_message(to, before.result),
    )
    &&& after.same_setup(&before)
}

/// The message the server answers a successful phase change with.
pub fn phase_updated_message(to: GamePhase) -> (s: String)
    ensures
        s@ == "フェーズを更新しました: "@ + phase_name(to),
{
    let prefix = "フェーズを更新しました: ".to_owned();
    prefix.concat(phase_debug_name(to).as_str())
}

/// A vote by somebody who has not voted keeps the tally well formed.
pub proof fn lemma_add_vote_wf(t: TallyView, voter: Seq<char>, target: Seq<char>)
    requires
        !has_voted(t, voter),
    ensures
        tally_wf(t) ==> tally_wf(add_vote(t, voter, target)),
{
    lemma_tally_index(t, target);
    let t2 = add_vote(t, voter, target);
    if tally_wf(t) {
        let k = tally_index(t, target);
        assert forall|i1: int, j1: int, i2: int, j2: int|
            0 <= i1 < t2.len() && 0 <= j1 < t2[i1].1.len() && 0 <= i2 < t2.len() && 0 <= j2
                < t2[i2].1.len() && (i1 != i2 || j1 != j2) implies #[trigger] t2[i1].1[j1]
            != #[trigger] t2[i2].1[j2] by {
            let new_i = if k >= 0 { k } else { t.len() as int };
            let new_j = if k >= 0 { t[k].1.len() as int } else { 0 };
            if !(i1 == new_i && j1 == new_j) && !(i2 == new_i && j2 == new_j) {
                assert(t2[i1].1[j1] == t[i1].1[j1]);
                assert(t2[i2].1[j2] == t[i2].1[j2]);
            } else if i1 == new_i && j1 == new_j {
                assert(t2[i2].1[j2] == t[i2].1[j2]);
            } else {
                assert(t2[i1].1[j1] == t[i1].1[j1]);
            }
        }
    }
}

} // verus!

verus! {

/// Two tallies with the same targets, in the same order, whose voter lists
/// hold the same voters (in whatever order).
pub open spec fn same_votes_up_to_order(a: TallyView, b: TallyView) -> bool {
    &&& a.len() == b.len()
    &&& forall|i: int|
        0 <= i < a.len() ==> (#[trigger] a[i]).0 == b[i].0 && a[i].1.to_multiset() == b[i].1.to_multiset()
}

/// The vote's outcome does not depend on the order in which each target's
/// voters voted: the winning entry, its target and its number of votes are
/// the same.
pub proof fn lemma_vote_outcome_ignores_voter_order(a: TallyView, b: TallyView)
    requires
        same_votes_up_to_order(a, b),
    ensures
        last_max_index(a) == last_max_index(b),
        last_max_index(a) >= 0 ==> a[last_max_index(a)].0 == b[last_max_index(b)].0
            && a[last_max_index(a)].1.len() == b[last_max_index(b)].1.len(),
    decreases a.len(),
{
    broadcast use vstd::seq_lib::group_to_multiset_ensures;
    if a.len() > 0 {
        let (ia, ib) = (a.drop_last(), b.drop_last());
        assert forall|i: int| 0 <= i < ia.len() implies (#[trigger] ia[i]).0 == ib[i].0
            && ia[i].1.to_multiset() == ib[i].1.to_multiset() by {
            assert(ia[i] == a[i] && ib[i] == b[i]);
        }
        lemma_vote_outcome_ignores_voter_order(ia, ib);
        let k = last_max_index(ia);
        assert(a.last().1.len() == a.last().1.to_multiset().len());
        assert(b.last().1.len() == b.last().1.to_multiset().len());
        assert(a[a.len() - 1] == a.last());
        if k >= 0 {
            lemma_last_max_index(ia);
            assert(ia[k] == a[k] && ib[k] == b[k]);
            assert(a[k].1.len() == a[k].1.to_multiset().len());
            assert(b[k].1.len() == b[k].1.to_multiset().len());
        }
    }
}

} // verus!
