//! Dealing roles to the players of a game: how many werewolves a game of a
//! given size has, and a shuffled deck of roles.

use vstd::prelude::*;
use rand::seq::SliceRandom;
use crate::role::Role;

verus! {

broadcast use {vstd::seq_lib::group_to_multiset_ensures, vstd::multiset::group_multiset_axioms};

/// Shuffles `roles` with the thread's random generator (rand's
/// `SliceRandom::shuffle`). Claimed: the roles are the same, in some order.
/// Which order comes out is not stated.
#[verifier::external_body]
fn shuffle_roles(roles: &mut Vec<Role>)
    ensures
        final(roles)@.to_multiset() == old(roles)@.to_multiset(),
{
    roles.shuffle(&mut rand::thread_rng());
}

/// The werewolf count of a game of `n` players, where a fixed rule gives it:
/// one for 4 to 6 players, two for 7 to 9, three for 10 to 15.
pub open spec fn fixed_werewolf_count(n: usize) -> Option<usize> {
    if 4 <= n <= 6 {
        Some(1)
    } else if 7 <= n <= 9 {
        Some(2)
    } else if 10 <= n <= 15 {
        Some(3)
    } else {
        None
    }
}

/// The werewolf count by the fixed rule; none for larger games, which take
/// 30 % of the players, rounded up.
pub fn werewolf_count_rule(players_count: usize) -> (r: Option<usize>)
    ensures
        r == fixed_werewolf_count(players_count),
        4 <= players_count <= 6 ==> r == Some(1usize),
        7 <= players_count <= 9 ==> r == Some(2usize),
        10 <= players_count <= 15 ==> r == Some(3usize),
        players_count < 4 || players_count > 15 ==> r is None,
{
    if 4 <= players_count && players_count <= 6 {
        Some(1)
    } else if 7 <= players_count && players_count <= 9 {
        Some(2)
    } else if 10 <= players_count && players_count <= 15 {
        Some(3)
    } else {
        None
    }
}

/// How many of `roles` are `r`.
pub open spec fn role_count(roles: Seq<Role>, r: Role) -> nat {
    roles.to_multiset().count(r)
}

/// Pushes `count` copies of `r`.
fn push_roles(roles: &mut Vec<Role>, r: Role, count: usize)
    ensures
        final(roles)@.len() == old(roles)@.len() + count,
        forall|x: Role|
            #![trigger role_count(final(roles)@, x)]
            role_count(final(roles)@, x) == role_count(old(roles)@, x) + (if x == r {
                count as int
            } else {
                0
            }),
{
    let mut i: usize = 0;
    while i < count
        invariant
            i <= count,
            roles@.len() == old(roles)@.len() + i,
            forall|x: Role|
                #![trigger role_count(roles@, x)]
                role_count(roles@, x) == role_count(old(roles)@, x) + (if x == r {
                    i as int
                } else {
                    0
                }),
        decreases count - i,
    {
        let ghost before = roles@;
        roles.push(r);
        assert forall|x: Role|
            #![trigger role_count(roles@, x)]
            role_count(roles@, x) == role_count(before, x) + (if x == r {
                1int
            } else {
                0
            }) by {
            assert(roles@.to_multiset() =~= before.to_multiset().insert(r));
        }
        i += 1;
    }
}

/// A shuffled deck of roles for `players_count` players with
/// `werewolf_count` werewolves: one seer, the rest villagers. Fewer than four
/// players are refused.
pub fn assign_roles_with(players_count: usize, werewolf_count: usize) -> (r: Result<Vec<Role>, String>)
    requires
        players_count >= 4 ==> werewolf_count + 1 <= players_count,
    ensures
        players_count < 4 ==> r is Err && r->Err_0@ == "At least 4 players are required"@,
        players_count >= 4 ==> r is Ok && {
            let roles = r->Ok_0@;
            &&& roles.len() == players_count
            &&& role_count(roles, Role::Werewolf) == werewolf_count
            &&& role_count(roles, Role::Seer) == 1
            &&& role_count(roles, Role::Villager) == players_count - werewolf_count - 1
            &&& role_count(roles, Role::Guard) == 0
        },
{
    if players_count < 4 {
        return Err("At least 4 players are required".to_owned());
    }
    let seer_count: usize = 1;
    let villager_count = players_count - werewolf_count - seer_count;
    let mut roles: Vec<Role> = Vec::new();
    assert(roles@.to_multiset() =~= vstd::multiset::Multiset::empty());
    let ghost empty = roles@;
    push_roles(&mut roles, Role::Werewolf, werewolf_count);
    let ghost s1 = roles@;
    push_roles(&mut roles, Role::Seer, seer_count);
    let ghost s2 = roles@;
    push_roles(&mut roles, Role::Villager, villager_count);
    let ghost s3 = roles@;
    proof {
        assert(role_count(empty, Role::Werewolf) == 0);
        assert(role_count(empty, Role::Seer) == 0);
        assert(role_count(empty, Role::Villager) == 0);
        assert(role_count(empty, Role::Guard) == 0);
        assert(role_count(s1, Role::Werewolf) == werewolf_count);
        assert(role_count(s1, Role::Seer) == 0);
        assert(role_count(s1, Role::Villager) == 0);
        assert(role_count(s1, Role::Guard) == 0);
        assert(role_count(s2, Role::Werewolf) == werewolf_count);
        assert(role_count(s2, Role::Seer) == 1);
        assert(role_count(s2, Role::Villager) == 0);
        assert(role_count(s2, Role::Guard) == 0);
        assert(role_count(s3, Role::Werewolf) == werewolf_count);
        assert(role_count(s3, Role::Seer) == 1);
        assert(role_count(s3, Role::Villager) == villager_count);
        assert(role_count(s3, Role::Guard) == 0);
    }
    shuffle_roles(&mut roles);
    proof {
        assert(roles@.len() == roles@.to_multiset().len());
        assert(s3.len() == s3.to_multiset().len());
        assert(role_count(roles@, Role::Werewolf) == werewolf_count);
        assert(role_count(roles@, Role::Seer) == 1);
        assert(role_count(roles@, Role::Villager) == villager_count);
        assert(role_count(roles@, Role::Guard) == 0);
    }
    Ok(roles)
}

/// Under the fixed rule a game keeps at least two players who are neither
/// werewolf nor seer.
pub proof fn lemma_fixed_rule_leaves_villagers(n: usize)
    requires
        fixed_werewolf_count(n) is Some,
    ensures
        fixed_werewolf_count(n)->Some_0 + 1 + 2 <= n,
{
}

/// The fixed werewolf counts: one werewolf for 4 to 6 players, two for 7
/// to 9, three for 10 to 15, and no fixed count otherwise; so the count
/// never falls as the game grows, and stays the same within each band.
pub proof fn lemma_fixed_werewolf_count_table(n: usize, m: usize)
    ensures
        4 <= n <= 6 ==> fixed_werewolf_count(n) == Some(1usize),
        7 <= n <= 9 ==> fixed_werewolf_count(n) == Some(2usize),
        10 <= n <= 15 ==> fixed_werewolf_count(n) == Some(3usize),
        n < 4 || n > 15 ==> fixed_werewolf_count(n) is None,
        n <= m && fixed_werewolf_count(n) is Some && fixed_werewolf_count(m) is Some ==> fixed_werewolf_count(
            n,
        )->Some_0 <= fixed_werewolf_count(m)->Some_0,
{
}

} // verus!
