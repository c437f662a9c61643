//! A participant of a room or game.

use vstd::prelude::*;
use crate::role::Role;

verus! {

#[derive(Debug)]
pub struct Player {
    pub id: String,
    pub name: String,
    pub role: Option<Role>,
    pub is_dead: bool,
    pub is_ready: bool,
}

impl Clone for Player {
    fn clone(&self) -> (r: Self)
        ensures
            r == *self,
    {
        Player {
            id: self.id.clone(),
            name: self.name.clone(),
            role: self.role,
            is_dead: self.is_dead,
            is_ready: self.is_ready,
        }
    }
}

impl Player {
    /// A living, not-yet-ready player.
    pub fn new(id: String, name: String, role: Option<Role>) -> (p: Self)
        ensures
            p.id == id,
            p.name == name,
            p.role == role,
            !p.is_dead,
            !p.is_ready,
    {
        Player { id, name, role, is_dead: false, is_ready: false }
    }
}

/// Index of the first player whose id is `id`, or -1.
pub open spec fn first_index_of(players: Seq<Player>, id: Seq<char>) -> int
    decreases players.len(),
{
    if players.len() == 0 {
        -1
    } else {
        let k = first_index_of(players.drop_last(), id);
        if k >= 0 {
            k
        } else if players.last().id@ == id {
            players.len() - 1
        } else {
            -1
        }
    }
}

pub open spec fn has_player(players: Seq<Player>, id: Seq<char>) -> bool {
    exists|i: int| 0 <= i < players.len() && (#[trigger] players[i]).id@ == id
}

pub proof fn lemma_first_index_of(players: Seq<Player>, id: Seq<char>)
    ensures
        -1 <= first_index_of(players, id) < players.len(),
        first_index_of(players, id) >= 0 <==> has_player(players, id),
        first_index_of(players, id) >= 0 ==> players[first_index_of(players, id)].id@ == id,
        forall|j: int|
            0 <= j < players.len() && (first_index_of(players, id) < 0 || j < first_index_of(
                players,
                id,
            )) ==> (#[trigger] players[j]).id@ != id,
    decreases players.len(),
{
    if players.len() > 0 {
        let init = players.drop_last();
        lemma_first_index_of(init, id);
        assert forall|j: int| 0 <= j < init.len() implies init[j] == players[j] by {}
        if has_player(players, id) {
            let w = choose|i: int| 0 <= i < players.len() && (#[trigger] players[i]).id@ == id;
            if w < players.len() - 1 {
                assert(init[w] == players[w]);
            }
        }
    }
}

/// Finds the first player with the given id.
pub fn find_player_index(players: &Vec<Player>, id: &str) -> (r: Option<usize>)
    ensures
        match r {
            Some(i) => i == first_index_of(players@, id@),
            None => first_index_of(players@, id@) == -1,
        },
{
    proof {
        lemma_first_index_of(players@, id@);
    }
    let n = players.len();
    let mut i: usize = 0;
    while i < n
        invariant
            n == players@.len(),
            i <= n,
            forall|j: int| 0 <= j < i ==> (#[trigger] players@[j]).id@ != id@,
            -1 <= first_index_of(players@, id@) < players@.len(),
            first_index_of(players@, id@) >= 0 ==> players@[first_index_of(players@, id@)].id@
                == id@,
            forall|j: int|
                0 <= j < players@.len() && (first_index_of(players@, id@) < 0 || j
                    < first_index_of(players@, id@)) ==> (#[trigger] players@[j]).id@ != id@,
        decreases n - i,
    {
        if crate::support::str_eq(players[i].id.as_str(), id) {
            return Some(i);
        }
        i += 1;
    }
    None
}

} // verus!
