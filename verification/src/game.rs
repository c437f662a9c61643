//! The state of one game and the rules that move it: phases, night attacks,
//! votes and the record of MPC results.

use vstd::prelude::*;
use crate::batch::{BatchRequest, BatchStatus, CircuitProfileKey, ProofTypeKey};
use crate::chat::{ChatLog, ChatMessage, ChatMessageType, is_system_message};
use crate::player::{Player, first_index_of, find_player_index, has_player, lemma_first_index_of};
use crate::support::{now_millis, str_eq};

verus! {

#[derive(Debug, Clone, Copy, PartialEq, Eq, Structural, Hash)]
pub enum GamePhase {
    /// Before the game starts.
    Waiting,
    /// Werewolves choose their prey; the seer chooses a target.
    Night,
    /// The divination result is being computed.
    DivinationProcessing,
    Discussion,
    Voting,
    /// The vote result is announced.
    Result,
    Finished,
}

#[derive(Debug, Clone, Copy, PartialEq, Eq, Structural)]
pub enum GameResult {
    InProgress,
    VillagerWin,
    WerewolfWin,
}

/// How many players of each role the role-assignment circuit groups, and
/// whether the members of a role know one another.
#[derive(Debug, Clone, Copy)]
pub struct GroupingParameter {
    pub fortune_teller: (usize, bool),
    pub werewolf: (usize, bool),
    pub villager: (usize, bool),
}

impl GroupingParameter {
    pub open spec fn num_players_spec(&self) -> int {
        self.fortune_teller.0 + self.werewolf.0 + self.villager.0
    }

    pub fn get_num_players(&self) -> (n: usize)
        requires
            self.num_players_spec() <= usize::MAX,
        ensures
            n == self.num_players_spec(),
    {
        self.fortune_teller.0 + self.werewolf.0 + self.villager.0
    }

    pub fn get_werewolf_count(&self) -> (n: usize)
        ensures
            n == self.werewolf.0,
    {
        self.werewolf.0
    }
}

/// Public cryptographic parameters of a game, each in its canonical
/// serialized form. No secret is kept here.
#[derive(Debug)]
pub struct CryptoParameters {
    pub pedersen_param: Vec<u8>,
    pub player_commitment: Vec<Vec<u8>>,
    /// The seer's ElGamal public key as the canonical bytes of its x and y.
    pub fortune_teller_public_key: Option<(Vec<u8>, Vec<u8>)>,
    pub elgamal_param: Vec<u8>,
}

#[derive(Debug)]
pub struct NightActions {
    /// Ids of the players the werewolves attack, in the order registered.
    pub attacks: Vec<String>,
}

pub enum NightAction {
    Attack { target_id: String },
}

pub struct NightActionRequest {
    pub player_id: String,
    pub action: NightAction,
}

pub struct ChangeRoleRequest {
    pub player_id: String,
    pub new_role: String,
}

#[derive(Debug)]
pub struct Vote {
    pub target_id: String,
    pub voters: Vec<String>,
}

/// A vote tally as plain values: for each target, its id and the ids of its
/// voters.
pub type TallyView = Seq<(Seq<char>, Seq<Seq<char>>)>;

pub open spec fn vote_view(v: Vote) -> (Seq<char>, Seq<Seq<char>>) {
    (v.target_id@, v.voters@.map_values(|s: String| s@))
}

pub open spec fn tally_view(votes: Seq<Vote>) -> TallyView {
    votes.map_values(|v: Vote| vote_view(v))
}

/// A result of an MPC computation, with the phase and day it belongs to.
/// `computed_at` is in milliseconds since the Unix epoch.
#[derive(Debug)]
pub struct ComputationEntry<T> {
    pub id: String,
    pub computed_at: i64,
    pub phase: GamePhase,
    pub day_count: u32,
    pub result: T,
}

#[derive(Debug)]
pub struct PlayerRoleAssignment {
    pub player_id: String,
    pub role: String,
}

/// Role assignment decided in the clear: each player's role, and the raw
/// circuit outputs (canonical bytes of each field element) it was read from.
#[derive(Debug)]
pub struct RoleAssignmentComputationResult {
    pub player_roles: Vec<PlayerRoleAssignment>,
    pub raw_role_result: Vec<Vec<u8>>,
    pub computed_at: i64,
}

/// The divination result: an ElGamal ciphertext in canonical serialized form.
#[derive(Debug)]
pub struct DivinationComputationResult {
    pub ciphertext: Vec<u8>,
}

#[derive(Debug)]
pub struct ComputationResults {
    pub role_assignment: Option<ComputationEntry<RoleAssignmentComputationResult>>,
    pub divination: Vec<ComputationEntry<DivinationComputationResult>>,
}

impl ComputationResults {
    pub fn new() -> (c: Self)
        ensures
            c.role_assignment.is_none(),
            c.divination@.len() == 0,
    {
        ComputationResults { role_assignment: None, divination: Vec::new() }
    }
}

/// Identifies the batch a request joins: same room, phase, day, proof type
/// and circuit size.
#[derive(Debug)]
pub struct BatchKey {
    pub room_id: String,
    pub phase: GamePhase,
    pub day_count: u32,
    pub proof_type: ProofTypeKey,
    pub circuit_profile: CircuitProfileKey,
}

impl Clone for BatchKey {
    fn clone(&self) -> (r: Self)
        ensures
            r == *self,
    {
        BatchKey {
            room_id: self.room_id.clone(),
            phase: self.phase,
            day_count: self.day_count,
            proof_type: self.proof_type,
            circuit_profile: self.circuit_profile,
        }
    }
}

/// Two keys name the same batch.
pub open spec fn same_key(a: BatchKey, b: BatchKey) -> bool {
    &&& a.room_id@ == b.room_id@
    &&& a.phase == b.phase
    &&& a.day_count == b.day_count
    &&& a.proof_type == b.proof_type
    &&& a.circuit_profile == b.circuit_profile
}

impl BatchKey {
    pub fn matches(&self, other: &BatchKey) -> (r: bool)
        ensures
            r == same_key(*self, *other),
    {
        str_eq(self.room_id.as_str(), other.room_id.as_str()) && self.phase == other.phase
            && self.day_count == other.day_count && self.proof_type == other.proof_type
            && self.circuit_profile == other.circuit_profile
    }
}

/// A batch still collecting requests, under its key.
#[derive(Debug)]
pub struct ActiveBatch {
    pub key: BatchKey,
    pub batch: BatchRequest,
}

/// A game. Times are in milliseconds since the Unix epoch.
#[derive(Debug)]
pub struct Game {
    pub room_id: String,
    pub name: String,
    pub players: Vec<Player>,
    pub max_players: usize,
    pub phase: GamePhase,
    pub day_count: u32,
    pub result: GameResult,
    pub night_actions: NightActions,
    /// One entry per voted target, in the order the targets first got a vote.
    pub vote_results: Vec<Vote>,
    pub crypto_parameters: Option<CryptoParameters>,
    pub chat_log: ChatLog,
    /// The batch that is being (or was last) processed.
    pub batch_request: BatchRequest,
    /// Batches still collecting requests, one per key.
    pub active_batches: Vec<ActiveBatch>,
    pub computation_results: ComputationResults,
    pub started_at: Option<i64>,
    pub phase_started_at: i64,
    pub ended_at: Option<i64>,
    pub grouping_parameter: GroupingParameter,
}

/// The text the server posts when a game enters `to`.
pub open spec fn phase_message(to: GamePhase, result: GameResult) -> Seq<char> {
    match to {
        GamePhase::Night => "Night has fallen. Werewolves, choose your prey. Seer, choose your target."@,
        GamePhase::DivinationProcessing => "Processing divination results. Please wait a moment."@,
        GamePhase::Discussion => "Morning has come. Let's discuss what happened last night."@,
        GamePhase::Voting => "It's time to vote. Cast your vote for the most suspicious person."@,
        GamePhase::Result => "Voting has ended. Announcing results."@,
        GamePhase::Finished => match result {
            GameResult::VillagerWin => "Villagers win!"@,
            GameResult::WerewolfWin => "Werewolves win!"@,
            GameResult::InProgress => "Game has ended."@,
        },
        GamePhase::Waiting => "Waiting for game to start."@,
    }
}

/// The phase after `p` in the round Night, DivinationProcessing, Discussion,
/// Voting, Result, Night, ...; a game leaves Waiting for Night and never
/// leaves Finished.
pub open spec fn next_phase_spec(p: GamePhase) -> Option<GamePhase> {
    match p {
        GamePhase::Waiting => Some(GamePhase::Night),
        GamePhase::Night => Some(GamePhase::DivinationProcessing),
        GamePhase::DivinationProcessing => Some(GamePhase::Discussion),
        GamePhase::Discussion => Some(GamePhase::Voting),
        GamePhase::Voting => Some(GamePhase::Result),
        GamePhase::Result => Some(GamePhase::Night),
        GamePhase::Finished => None,
    }
}

/// The phase reached from `p` after `k` advances; none if the game is
/// finished on the way.
pub open spec fn phase_after(p: GamePhase, k: nat) -> Option<GamePhase>
    decreases k,
{
    if k == 0 {
        Some(p)
    } else {
        match next_phase_spec(p) {
            Some(q) => phase_after(q, (k - 1) as nat),
            None => None,
        }
    }
}

/// A game day is a round of five phases: from any phase of the round, five
/// advances come back to it, passing through neither Waiting nor Finished;
/// a waiting game starts the round at Night; a finished game never advances.
pub proof fn lemma_phase_round(p: GamePhase)
    ensures
        p != GamePhase::Waiting && p != GamePhase::Finished ==> phase_after(p, 5) == Some(p),
        p != GamePhase::Waiting && p != GamePhase::Finished ==> forall|k: nat|
            1 <= k <= 5 ==> #[trigger] phase_after(p, k) is Some && phase_after(p, k)->Some_0
                != GamePhase::Waiting && phase_after(p, k)->Some_0 != GamePhase::Finished,
        next_phase_spec(GamePhase::Waiting) == Some(GamePhase::Night),
        next_phase_spec(GamePhase::Finished) is None,
{
    reveal_with_fuel(phase_after, 6);
    assert forall|k: nat| 1 <= k <= 5 && p != GamePhase::Waiting && p != GamePhase::Finished implies #[trigger] phase_after(
        p,
        k,
    ) is Some && phase_after(p, k)->Some_0 != GamePhase::Waiting && phase_after(p, k)->Some_0
        != GamePhase::Finished by {
        reveal_with_fuel(phase_after, 6);
        if k == 1 {
        } else if k == 2 {
        } else if k == 3 {
        } else if k == 4 {
        } else {
        }
    }
}

/// The name `Debug` gives a phase.
pub open spec fn phase_name(p: GamePhase) -> Seq<char> {
    match p {
        GamePhase::Waiting => "Waiting"@,
        GamePhase::Night => "Night"@,
        GamePhase::DivinationProcessing => "DivinationProcessing"@,
        GamePhase::Discussion => "Discussion"@,
        GamePhase::Voting => "Voting"@,
        GamePhase::Result => "Result"@,
        GamePhase::Finished => "Finished"@,
    }
}

pub fn next_phase(p: GamePhase) -> (r: Option<GamePhase>)
    ensures
        r == next_phase_spec(p),
{
    match p {
        GamePhase::Waiting => Some(GamePhase::Night),
        GamePhase::Night => Some(GamePhase::DivinationProcessing),
        GamePhase::DivinationProcessing => Some(GamePhase::Discussion),
        GamePhase::Discussion => Some(GamePhase::Voting),
        GamePhase::Voting => Some(GamePhase::Result),
        GamePhase::Result => Some(GamePhase::Night),
        GamePhase::Finished => None,
    }
}

pub fn phase_debug_name(p: GamePhase) -> (s: String)
    ensures
        s@ == phase_name(p),
{
    match p {
        GamePhase::Waiting => "Waiting".to_owned(),
        GamePhase::Night => "Night".to_owned(),
        GamePhase::DivinationProcessing => "DivinationProcessing".to_owned(),
        GamePhase::Discussion => "Discussion".to_owned(),
        GamePhase::Voting => "Voting".to_owned(),
        GamePhase::Result => "Result".to_owned(),
        GamePhase::Finished => "Finished".to_owned(),
    }
}

/// `players` with the one at `k` dead, when `k` is an index of it.
pub open spec fn mark_dead(players: Seq<Player>, k: int) -> Seq<Player> {
    if 0 <= k < players.len() {
        players.update(k, Player { is_dead: true, ..players[k] })
    } else {
        players
    }
}

/// Each attack, in order, kills the first player with the attacked id.
pub open spec fn apply_attacks(players: Seq<Player>, attacks: Seq<Seq<char>>) -> Seq<Player>
    decreases attacks.len(),
{
    if attacks.len() == 0 {
        players
    } else {
        let before = apply_attacks(players, attacks.drop_last());
        mark_dead(before, first_index_of(before, attacks.last()))
    }
}

/// Whether `voter` already voted for somebody.
pub open spec fn has_voted(tally: TallyView, voter: Seq<char>) -> bool {
    exists|i: int, j: int|
        0 <= i < tally.len() && 0 <= j < tally[i].1.len() && #[trigger] tally[i].1[j] == voter
}

/// Index of the first entry of the tally for `target`, or -1.
pub open spec fn tally_index(tally: TallyView, target: Seq<char>) -> int
    decreases tally.len(),
{
    if tally.len() == 0 {
        -1
    } else {
        let k = tally_index(tally.drop_last(), target);
        if k >= 0 {
            k
        } else if tally.last().0 == target {
            tally.len() - 1
        } else {
            -1
        }
    }
}

/// The tally after `voter` votes for `target`.
pub open spec fn add_vote(tally: TallyView, voter: Seq<char>, target: Seq<char>) -> TallyView {
    let k = tally_index(tally, target);
    if k >= 0 {
        tally.update(k, (tally[k].0, tally[k].1.push(voter)))
    } else {
        tally.push((target, seq![voter]))
    }
}

/// `i` is the last entry with the most voters.
pub open spec fn is_last_max(tally: TallyView, i: int) -> bool {
    &&& 0 <= i < tally.len()
    &&& forall|j: int| 0 <= j < tally.len() ==> (#[trigger] tally[j]).1.len() <= tally[i].1.len()
    &&& forall|j: int| i < j < tally.len() ==> (#[trigger] tally[j]).1.len() < tally[i].1.len()
}

/// Each target has one entry in the tally.
pub open spec fn targets_distinct(tally: TallyView) -> bool {
    forall|i: int, j: int| 0 <= i < j < tally.len() ==> (#[trigger] tally[i]).0 != (#[trigger] tally[j]).0
}

/// Whether each target has one entry among `votes`.
pub fn vote_targets_distinct(votes: &Vec<Vote>) -> (r: bool)
    ensures
        r == targets_distinct(tally_view(votes@)),
{
    let ghost t = tally_view(votes@);
    let n = votes.len();
    let mut i: usize = 0;
    while i < n
        invariant
            n == votes@.len(),
            t == tally_view(votes@),
            i <= n,
            forall|a: int, b: int| 0 <= a < b < n && a < i ==> (#[trigger] t[a]).0 != (#[trigger] t[b]).0,
        decreases n - i,
    {
        let mut j: usize = i + 1;
        while j < n
            invariant
                n == votes@.len(),
                t == tally_view(votes@),
                i < n,
                i + 1 <= j <= n,
                forall|a: int, b: int| 0 <= a < b < n && a < i ==> (#[trigger] t[a]).0 != (#[trigger] t[b]).0,
                forall|b: int| i < b < j ==> t[i as int].0 != (#[trigger] t[b]).0,
            decreases n - j,
        {
            if crate::support::str_eq(votes[i].target_id.as_str(), votes[j].target_id.as_str()) {
                assert(t[i as int].0 == t[j as int].0);
                return false;
            }
            j += 1;
        }
        i += 1;
    }
    true
}

/// The tally's targets are distinct and nobody voted twice.
pub open spec fn tally_wf(tally: TallyView) -> bool {
    &&& targets_distinct(tally)
    &&& forall|i1: int, j1: int, i2: int, j2: int|
        0 <= i1 < tally.len() && 0 <= j1 < tally[i1].1.len() && 0 <= i2 < tally.len() && 0 <= j2
            < tally[i2].1.len() && (i1 != i2 || j1 != j2) ==> #[trigger] tally[i1].1[j1]
            != #[trigger] tally[i2].1[j2]
}

impl Game {
    /// Fields other than players, votes, attacks, chat, phase and day are equal.
    pub open spec fn same_setup(&self, other: &Game) -> bool {
        &&& self.room_id == other.room_id
        &&& self.name == other.name
        &&& self.max_players == other.max_players
        &&& self.result == other.result
        &&& self.crypto_parameters == other.crypto_parameters
        &&& self.batch_request == other.batch_request
        &&& self.active_batches == other.active_batches
        &&& self.computation_results == other.computation_results
        &&& self.started_at == other.started_at
        &&& self.ended_at == other.ended_at
        &&& self.grouping_parameter == other.grouping_parameter
    }

    /// A new game waiting to start, on day 1.
    pub fn new(
        room_id: String,
        players: Vec<Player>,
        max_players: usize,
        grouping_parameter: GroupingParameter,
    ) -> (g: Self)
        ensures
            g.room_id == room_id,
            g.name@ == Seq::<char>::empty(),
            g.players == players,
            g.max_players == max_players,
            g.phase == GamePhase::Waiting,
            g.day_count == 1,
            g.result == GameResult::InProgress,
            g.night_actions.attacks@.len() == 0,
            g.vote_results@.len() == 0,
            g.crypto_parameters.is_none(),
            g.chat_log.room_id == room_id,
            g.chat_log.messages@.len() == 0,
            g.batch_request.requests@.len() == 0,
            g.batch_request.expected_prover_count == 0,
            g.batch_request.status == BatchStatus::Collecting,
            g.active_batches@.len() == 0,
            g.computation_results.role_assignment.is_none(),
            g.computation_results.divination@.len() == 0,
            g.started_at.is_some(),
            g.ended_at.is_none(),
            g.grouping_parameter == grouping_parameter,
    {
        let chat_log = ChatLog::new(room_id.clone());
        let now = now_millis();
        Game {
            room_id,
            name: String::new(),
            players,
            max_players,
            phase: GamePhase::Waiting,
            day_count: 1,
            result: GameResult::InProgress,
            night_actions: NightActions { attacks: Vec::new() },
            vote_results: Vec::new(),
            crypto_parameters: None,
            chat_log,
            batch_request: BatchRequest::new(0),
            active_batches: Vec::new(),
            computation_results: ComputationResults::new(),
            started_at: Some(now),
            phase_started_at: now,
            ended_at: None,
            grouping_parameter,
        }
    }

    pub fn has_role_assignment(&self) -> (b: bool)
        ensures
            b == self.computation_results.role_assignment.is_some(),
    {
        self.computation_results.role_assignment.is_some()
    }

    /// Whether a divination result exists for the current phase and day.
    pub fn has_divination_for_current_phase(&self) -> (b: bool)
        ensures
            b == exists|i: int|
                0 <= i < self.computation_results.divination@.len()
                    && (#[trigger] self.computation_results.divination@[i]).phase == self.phase
                    && self.computation_results.divination@[i].day_count == self.day_count,
    {
        match self.get_divination_for_phase(&self.phase, self.day_count) {
            Some(_) => true,
            None => false,
        }
    }

    /// The first divination result recorded for `phase` and `day_count`.
    pub fn get_divination_for_phase(&self, phase: &GamePhase, day_count: u32) -> (r: Option<
        &ComputationEntry<DivinationComputationResult>,
    >)
        ensures
            match r {
                Some(e) => exists|i: int|
                    0 <= i < self.computation_results.divination@.len()
                        && self.computation_results.divination@[i] == *e && e.phase == *phase
                        && e.day_count == day_count && forall|j: int|
                        0 <= j < i ==> !((#[trigger] self.computation_results.divination@[j]).phase
                            == *phase && self.computation_results.divination@[j].day_count
                            == day_count),
                None => forall|j: int|
                    0 <= j < self.computation_results.divination@.len() ==> !((#[trigger] self.computation_results.divination@[j]).phase
                        == *phase && self.computation_results.divination@[j].day_count
                        == day_count),
            },
    {
        let divs = &self.computation_results.divination;
        let n = divs.len();
        let mut i: usize = 0;
        while i < n
            invariant
                n == divs@.len(),
                divs == &self.computation_results.divination,
                i <= n,
                forall|j: int|
                    0 <= j < i ==> !((#[trigger] divs@[j]).phase == *phase && divs@[j].day_count
                        == day_count),
            decreases n - i,
        {
            if divs[i].phase == *phase && divs[i].day_count == day_count {
                return Some(&divs[i]);
            }
            i += 1;
        }
        None
    }

    /// Records a divination result for the current phase and day.
    pub fn save_divination_result(&mut self, id: String, ciphertext: Vec<u8>)
        ensures
            final(self).computation_results.divination@.len()
                == old(self).computation_results.divination@.len() + 1,
            final(self).computation_results.divination@.drop_last()
                == old(self).computation_results.divination@,
            final(self).computation_results.divination@.last().id == id,
            final(self).computation_results.divination@.last().phase == old(self).phase,
            final(self).computation_results.divination@.last().day_count == old(self).day_count,
            final(self).computation_results.divination@.last().result.ciphertext == ciphertext,
            *final(self) == (Game {
                computation_results: ComputationResults {
                    divination: final(self).computation_results.divination,
                    ..old(self).computation_results
                },
                ..*old(self)
            }),
    {
        let entry = ComputationEntry {
            id,
            computed_at: now_millis(),
            phase: self.phase,
            day_count: self.day_count,
            result: DivinationComputationResult { ciphertext },
        };
        self.computation_results.divination.push(entry);
        assert(self.computation_results.divination@.drop_last()
            =~= old(self).computation_results.divination@);
    }

    /// A divination may start at night when none was made for this night yet.
    pub fn can_perform_divination(&self) -> (b: bool)
        ensures
            b == (self.phase == GamePhase::Night && !exists|i: int|
                0 <= i < self.computation_results.divination@.len()
                    && (#[trigger] self.computation_results.divination@[i]).phase == self.phase
                    && self.computation_results.divination@[i].day_count == self.day_count),
    {
        self.phase == GamePhase::Night && !self.has_divination_for_current_phase()
    }

    pub fn has_pending_or_processing_batches(&self) -> (b: bool)
        ensures
            b == (self.batch_request.status == BatchStatus::Processing
                || self.batch_request.requests@.len() > 0 || self.active_batches@.len() > 0),
    {
        self.batch_request.status == BatchStatus::Processing
            || !self.batch_request.requests.is_empty() || !self.active_batches.is_empty()
    }

    /// Posts the server's message for entering `to_phase`.
    pub fn add_phase_change_message(&mut self, from_phase: GamePhase, to_phase: GamePhase)
        ensures
            final(self).chat_log.room_id == old(self).chat_log.room_id,
            final(self).chat_log.messages@.len() == old(self).chat_log.messages@.len() + 1,
            final(self).chat_log.messages@.drop_last() == old(self).chat_log.messages@,
            is_system_message(
                final(self).chat_log.messages@.last(),
                phase_message(to_phase, old(self).result),
            ),
            final(self).same_setup(&*old(self)),
            final(self).players == old(self).players,
            final(self).phase == old(self).phase,
            final(self).day_count == old(self).day_count,
            final(self).vote_results == old(self).vote_results,
            final(self).night_actions == old(self).night_actions,
            final(self).phase_started_at == old(self).phase_started_at,
    {
        let text = match to_phase {
            GamePhase::Night => "Night has fallen. Werewolves, choose your prey. Seer, choose your target.".to_owned(),
            GamePhase::DivinationProcessing => "Processing divination results. Please wait a moment.".to_owned(),
            GamePhase::Discussion => "Morning has come. Let's discuss what happened last night.".to_owned(),
            GamePhase::Voting => "It's time to vote. Cast your vote for the most suspicious person.".to_owned(),
            GamePhase::Result => "Voting has ended. Announcing results.".to_owned(),
            GamePhase::Finished => match self.result {
                GameResult::VillagerWin => "Villagers win!".to_owned(),
                GameResult::WerewolfWin => "Werewolves win!".to_owned(),
                GameResult::InProgress => "Game has ended.".to_owned(),
            },
            GamePhase::Waiting => "Waiting for game to start.".to_owned(),
        };
        let message = ChatMessage::new(
            "system".to_owned(),
            "System".to_owned(),
            text,
            ChatMessageType::System,
        );
        self.chat_log.add_message(message);
        assert(self.chat_log.messages@.drop_last() =~= old(self).chat_log.messages@);
    }

    /// Moves to the next day.
    pub fn advance_to_next_day(&mut self)
        requires
            old(self).day_count < u32::MAX,
        ensures
            final(self).day_count == old(self).day_count + 1,
            *final(self) == (Game { day_count: final(self).day_count, ..*old(self) }),
    {
        self.day_count = self.day_count + 1;
    }

    /// Enters `new_phase`; going from Result to Night starts a new day.
    pub fn change_phase(&mut self, new_phase: GamePhase)
        requires
            old(self).phase == GamePhase::Result && new_phase == GamePhase::Night
                ==> old(self).day_count < u32::MAX,
        ensures
            final(self).phase == new_phase,
            final(self).day_count == old(self).day_count + (if old(self).phase == GamePhase::Result
                && new_phase == GamePhase::Night {
                1int
            } else {
                0int
            }),
            final(self).chat_log.messages@.len() == old(self).chat_log.messages@.len() + 1,
            final(self).chat_log.messages@.drop_last() == old(self).chat_log.messages@,
            is_system_message(
                final(self).chat_log.messages@.last(),
                phase_message(new_phase, old(self).result),
            ),
            final(self).same_setup(&*old(self)),
            final(self).players == old(self).players,
            final(self).vote_results == old(self).vote_results,
            final(self).night_actions == old(self).night_actions,
            final(self).chat_log.room_id == old(self).chat_log.room_id,
            *final(self) == (Game {
                phase: new_phase,
                day_count: final(self).day_count,
                chat_log: final(self).chat_log,
                phase_started_at: final(self).phase_started_at,
                ..*old(self)
            }),
    {
        let old_phase = self.phase;
        if old_phase == GamePhase::Result && new_phase == GamePhase::Night {
            self.advance_to_next_day();
        }
        self.phase = new_phase;
        self.phase_started_at = now_millis();
        self.add_phase_change_message(old_phase, new_phase);
    }

    /// Leaves DivinationProcessing for Discussion; returns whether it did.
    pub fn complete_divination_processing(&mut self) -> (moved: bool)
        ensures
            moved == (old(self).phase == GamePhase::DivinationProcessing),
            !moved ==> *final(self) == *old(self),
            moved ==> final(self).phase == GamePhase::Discussion && final(self).day_count
                == old(self).day_count && final(self).chat_log.messages@.drop_last()
                == old(self).chat_log.messages@ && is_system_message(
                final(self).chat_log.messages@.last(),
                phase_message(GamePhase::Discussion, old(self).result),
            ) && final(self).same_setup(&*old(self)) && final(self).players
                == old(self).players && final(self).vote_results == old(self).vote_results,
    {
        if self.phase == GamePhase::DivinationProcessing {
            self.change_phase(GamePhase::Discussion);
            true
        } else {
            false
        }
    }
}

} // verus!
