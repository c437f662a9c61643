//! Card counts of a role assignment, the deck layout, the permutation that
//! shuffles only the player cards, and the argument that a shuffle left the
//! role cards in place.

use vstd::prelude::*;
use crate::cards::{WerewolfCard, WerewolfRole};

verus! {

/// The numbers of a role assignment.
#[derive(Debug, Clone, Copy)]
pub struct Num {
    pub players: usize,
    pub villagers: usize,
    pub seers: usize,
    pub hunters: usize,
    pub werewolfs: usize,
    /// Groups that see one another: each villager, seer and hunter alone,
    /// and the werewolves together.
    pub groups: usize,
    /// Player cards and role cards.
    pub cards: usize,
    /// Decks needed: one per werewolf.
    pub decks: usize,
}

impl Num {
    /// From the counts of villagers, seers, hunters and werewolves.
    pub fn new(casting: [usize; 4]) -> (n: Self)
        requires
            casting[0] + casting[1] + casting[2] + casting[3] + casting[0] + casting[1] + casting[2] + 1
                <= usize::MAX,
        ensures
            n.players == casting[0] + casting[1] + casting[2] + casting[3],
            n.villagers == casting[0],
            n.seers == casting[1],
            n.hunters == casting[2],
            n.werewolfs == casting[3],
            n.groups == casting[0] + casting[1] + casting[2] + 1,
            n.cards == n.players + casting[0] + casting[1] + casting[2] + 1,
            n.decks == casting[3],
    {
        let special = casting[0] + casting[1] + casting[2];
        let players = special + casting[3];
        Num {
            players,
            villagers: casting[0],
            seers: casting[1],
            hunters: casting[2],
            werewolfs: casting[3],
            groups: special + 1,
            cards: players + special + 1,
            decks: casting[3],
        }
    }
}

/// The cards in deck order: player cards 0..players, then the villager,
/// hunter and seer cards, then the one werewolf card.
pub open spec fn layout(players: nat, villagers: nat, seers: nat, hunters: nat) -> Seq<WerewolfCard> {
    Seq::new(
        players + villagers + hunters + seers + 1,
        |i: int|
            if i < players {
                WerewolfCard::Player(i as usize)
            } else if i < players + villagers {
                WerewolfCard::Role(WerewolfRole::Villager)
            } else if i < players + villagers + hunters {
                WerewolfCard::Role(WerewolfRole::Hunter)
            } else if i < players + villagers + hunters + seers {
                WerewolfCard::Role(WerewolfRole::Seer)
            } else {
                WerewolfCard::Role(WerewolfRole::Werewolf)
            },
    )
}

/// The cards to deal, in deck order.
pub fn card_layout(players: usize, villagers: usize, seers: usize, hunters: usize) -> (r: Vec<WerewolfCard>)
    requires
        players + villagers + hunters + seers + 1 <= usize::MAX,
    ensures
        r@ == layout(players as nat, villagers as nat, seers as nat, hunters as nat),
{
    let mut out: Vec<WerewolfCard> = Vec::new();
    let total = players + villagers + hunters + seers + 1;
    let ghost want = layout(players as nat, villagers as nat, seers as nat, hunters as nat);
    let mut i: usize = 0;
    while i < total
        invariant
            total == players + villagers + hunters + seers + 1,
            want == layout(players as nat, villagers as nat, seers as nat, hunters as nat),
            i <= total,
            out@ == want.take(i as int),
        decreases total - i,
    {
        let c = if i < players {
            WerewolfCard::Player(i)
        } else if i < players + villagers {
            WerewolfCard::Role(WerewolfRole::Villager)
        } else if i < players + villagers + hunters {
            WerewolfCard::Role(WerewolfRole::Hunter)
        } else if i < players + villagers + hunters + seers {
            WerewolfCard::Role(WerewolfRole::Seer)
        } else {
            WerewolfCard::Role(WerewolfRole::Werewolf)
        };
        out.push(c);
        assert(out@ =~= want.take(i + 1));
        i += 1;
    }
    assert(want.take(total as int) =~= want);
    out
}

/// A permutation of `0..size`, as the image of each position.
#[derive(Debug)]
pub struct Permutation {
    pub mapping: Vec<usize>,
    pub size: usize,
}

/// `m` maps `0..n` one-to-one onto itself.
pub open spec fn is_permutation(m: Seq<usize>, n: nat) -> bool {
    &&& m.len() == n
    &&& forall|i: int| 0 <= i < n ==> #[trigger] m[i] < n
    &&& forall|i: int, j: int| 0 <= i < j < n ==> #[trigger] m[i] != #[trigger] m[j]
}

impl Permutation {
    pub open spec fn wf(&self) -> bool {
        is_permutation(self.mapping@, self.size as nat)
    }
}

/// A permutation of the first `players` positions only: `head` moves the
/// player cards, and every later position up to `cards` stays.
pub fn partial_permutation(head: Vec<usize>, players: usize, cards: usize) -> (p: Permutation)
    requires
        is_permutation(head@, players as nat),
        players <= cards,
    ensures
        p.size == cards,
        p.mapping@.take(players as int) == head@,
        forall|i: int| players <= i < cards ==> p.mapping@[i] == i,
        p.wf(),
{
    let mut mapping = head;
    let mut k: usize = players;
    while k < cards
        invariant
            players <= k <= cards,
            mapping@.len() == k,
            mapping@.take(players as int) == head@,
            is_permutation(head@, players as nat),
            forall|i: int| players <= i < k ==> mapping@[i] == i,
        decreases cards - k,
    {
        let ghost before = mapping@;
        mapping.push(k);
        assert(mapping@.take(players as int) =~= before.take(players as int));
        k += 1;
    }
    proof {
        assert forall|i: int| 0 <= i < cards implies #[trigger] mapping@[i] < cards by {
            if i < players {
                assert(mapping@[i] == head@[i]);
            }
        }
        assert forall|i: int, j: int| 0 <= i < j < cards implies #[trigger] mapping@[i] != #[trigger] mapping@[j] by {
            if j < players {
                assert(mapping@[i] == head@[i] && mapping@[j] == head@[j]);
            } else if i < players {
                assert(mapping@[i] == head@[i]);
            }
        }
    }
    Permutation { mapping, size: cards }
}

/// The inverse permutation: position `mapping[i]` goes back to `i`.
pub fn inverse(p: &Permutation) -> (q: Permutation)
    requires
        p.wf(),
    ensures
        q.size == p.size,
        q.mapping@.len() == p.size,
        forall|i: int| 0 <= i < p.size ==> q.mapping@[#[trigger] p.mapping@[i] as int] == i,
{
    let n = p.size;
    let mut inv: Vec<usize> = Vec::new();
    let mut k: usize = 0;
    while k < n
        invariant
            k <= n,
            inv@.len() == k,
            forall|j: int| 0 <= j < k ==> inv@[j] == 0,
        decreases n - k,
    {
        inv.push(0);
        k += 1;
    }
    let mut i: usize = 0;
    while i < n
        invariant
            n == p.size,
            p.wf(),
            i <= n,
            inv@.len() == n,
            forall|a: int| 0 <= a < i ==> inv@[#[trigger] p.mapping@[a] as int] == a,
        decreases n - i,
    {
        let j = p.mapping[i];
        let ghost before = inv@;
        inv.set(j, i);
        assert forall|a: int| 0 <= a < i + 1 implies inv@[#[trigger] p.mapping@[a] as int] == a by {
            if a < i {
                assert(p.mapping@[a] != p.mapping@[i as int]);
                assert(inv@[p.mapping@[a] as int] == before[p.mapping@[a] as int]);
            }
        }
        i += 1;
    }
    Permutation { mapping: inv, size: n }
}

/// Public inputs of the partial-shuffle argument: how many positions at
/// the start stay out of the argument, and how many there are in all.
#[derive(Debug, Clone, Copy)]
pub struct Statement {
    pub num_of_fixed: usize,
    pub num_of_total: usize,
}

impl Statement {
    pub fn new(num_of_fixed: usize, num_of_total: usize) -> (s: Self)
        ensures
            s.num_of_fixed == num_of_fixed,
            s.num_of_total == num_of_total,
    {
        Statement { num_of_fixed, num_of_total }
    }
}

/// The argument needs no set-up.
#[derive(Debug, Clone, Copy)]
pub struct Parameters {}

impl Parameters {
    pub fn new() -> (p: Self) {
        Parameters {}
    }
}

/// The prover's secret: the permutation it applied.
#[derive(Debug)]
pub struct Witness<'a> {
    pub permutation: &'a Permutation,
}

impl<'a> Witness<'a> {
    pub fn new(permutation: &'a Permutation) -> (w: Self)
        ensures
            w.permutation == permutation,
    {
        Witness { permutation }
    }
}

/// The proof: the permutation from position `num_of_fixed` on.
#[derive(Debug)]
pub struct Proof {
    pub partial_permutation: Vec<usize>,
}

#[derive(Debug, Clone, PartialEq, Eq)]
pub enum ShuffleError {
    ProofVerificationError(String),
}

/// `lo..hi` as a sequence.
pub open spec fn range_seq(lo: int, hi: int) -> Seq<usize> {
    Seq::new((hi - lo) as nat, |i: int| (lo + i) as usize)
}

impl Proof {
    /// Accepts exactly when the proof lists the last `num_of_fixed`
    /// positions, `num_of_total - num_of_fixed .. num_of_total`, in order:
    /// what the prover reveals for a deck whose fixed cards were left in
    /// place.
    pub fn verify(&self, statement: &Statement) -> (r: Result<(), ShuffleError>)
        requires
            statement.num_of_fixed <= statement.num_of_total,
        ensures
            r is Ok <==> self.partial_permutation@ == range_seq(
                statement.num_of_total - statement.num_of_fixed,
                statement.num_of_total as int,
            ),
            r matches Err(ShuffleError::ProofVerificationError(m)) ==> m@ == "Partial Shuffle"@,
    {
        let hi = statement.num_of_total;
        let lo = hi - statement.num_of_fixed;
        let left = &self.partial_permutation;
        let ghost right = range_seq(lo as int, hi as int);
        if left.len() != hi - lo {
            return Err(ShuffleError::ProofVerificationError("Partial Shuffle".to_owned()));
        }
        let mut i: usize = 0;
        while i < hi - lo
            invariant
                lo <= hi,
                lo == statement.num_of_total - statement.num_of_fixed,
                hi == statement.num_of_total,
                left == &self.partial_permutation,
                left@.len() == hi - lo,
                right == range_seq(lo as int, hi as int),
                i <= hi - lo,
                forall|k: int| 0 <= k < i ==> left@[k] == right[k],
            decreases hi - lo - i,
        {
            if left[i] != lo + i {
                assert(left@[i as int] != right[i as int]);
                return Err(ShuffleError::ProofVerificationError("Partial Shuffle".to_owned()));
            }
            i += 1;
        }
        assert(left@ =~= right);
        Ok(())
    }
}

/// Makes the proof for a statement from its witness.
#[derive(Debug)]
pub struct Prover<'a> {
    pub parameters: &'a Parameters,
    pub statement: &'a Statement,
    pub witness: &'a Witness<'a>,
}

impl<'a> Prover<'a> {
    pub fn new(parameters: &'a Parameters, statement: &'a Statement, witness: &'a Witness<'a>) -> (p: Self)
        ensures
            p.parameters == parameters,
            p.statement == statement,
            p.witness == witness,
    {
        Prover { parameters, statement, witness }
    }

    /// The images of the last `num_of_fixed` positions: the permutation
    /// from position `num_of_total - num_of_fixed` on.
    pub fn prove(&self) -> (r: Result<Proof, ShuffleError>)
        requires
            self.statement.num_of_fixed <= self.statement.num_of_total,
            self.statement.num_of_total <= self.witness.permutation.mapping@.len(),
        ensures
            r is Ok,
            r->Ok_0.partial_permutation@ == self.witness.permutation.mapping@.skip(
                self.statement.num_of_total - self.statement.num_of_fixed,
            ),
    {
        let m = &self.witness.permutation.mapping;
        let start: usize = self.statement.num_of_total - self.statement.num_of_fixed;
        let mut out: Vec<usize> = Vec::new();
        let mut i: usize = start;
        while i < m.len()
            invariant
                start <= i <= m@.len(),
                out@ == m@.subrange(start as int, i as int),
            decreases m@.len() - i,
        {
            out.push(m[i]);
            assert(out@ =~= m@.subrange(start as int, i + 1));
            i += 1;
        }
        assert(out@ =~= m@.skip(start as int));
        Ok(Proof { partial_permutation: out })
    }
}

/// The partial-shuffle argument of knowledge: its prover and its verifier.
#[derive(Debug, Clone, Copy)]
pub struct PartialShuffle {}

impl PartialShuffle {
    /// The proof for `statement` from `witness`.
    pub fn prove(parameters: &Parameters, statement: &Statement, witness: &Witness) -> (r: Result<Proof, ShuffleError>)
        requires
            statement.num_of_fixed <= statement.num_of_total,
            statement.num_of_total <= witness.permutation.mapping@.len(),
        ensures
            r is Ok,
            r->Ok_0.partial_permutation@ == witness.permutation.mapping@.skip(
                statement.num_of_total - statement.num_of_fixed,
            ),
    {
        let prover = Prover::new(parameters, statement, witness);
        prover.prove()
    }

    /// Checks `proof` against `statement`.
    pub fn verify(parameters: &Parameters, statement: &Statement, proof: &Proof) -> (r: Result<(), ShuffleError>)
        requires
            statement.num_of_fixed <= statement.num_of_total,
        ensures
            r is Ok <==> proof.partial_permutation@ == range_seq(
                statement.num_of_total - statement.num_of_fixed,
                statement.num_of_total as int,
            ),
    {
        proof.verify(statement)
    }
}

/// The proof made from an unshuffled deck of `n` cards verifies against
/// any statement with `num_of_total == n`: it lists exactly the last
/// `num_of_fixed` positions.
pub proof fn lemma_identity_proof(n: nat, f: nat)
    requires
        f <= n,
    ensures
        range_seq(0, n as int).skip(n - f) == range_seq(n - f, n as int),
{
    assert(range_seq(0, n as int).skip(n - f) =~= range_seq(n - f, n as int));
}

} // verus!
