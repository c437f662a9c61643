//! The cards of the mental-poker role assignment: one card per player and
//! one per role (the werewolves share one), in a fixed order.

use vstd::prelude::*;
use vstd::std_specs::cmp::PartialOrdSpecImpl;
use core::cmp::Ordering;
use crate::text::{decimal, usize_to_decimal};

verus! {

#[derive(Debug, Clone, Copy, PartialEq, Eq, Structural, PartialOrd, Ord)]
pub enum WerewolfRole {
    Villager,
    Seer,
    Hunter,
    Werewolf,
}

/// A player card (its player's number) or a role card.
#[derive(Debug, Clone, Copy, PartialEq, Eq, Structural, Ord)]
pub enum WerewolfCard {
    Player(usize),
    Role(WerewolfRole),
}

#[derive(Debug, Clone, Copy, PartialEq, Eq, Structural)]
pub enum GameErrors {
    CardNotFound,
    InvalidCard,
}

impl GameErrors {
    pub fn to_string(&self) -> (s: String)
        ensures
            s@ == (match *self {
                GameErrors::CardNotFound => "No such card in hand"@,
                GameErrors::InvalidCard => "Invalid card"@,
            }),
    {
        match self {
            GameErrors::CardNotFound => "No such card in hand".to_owned(),
            GameErrors::InvalidCard => "Invalid card".to_owned(),
        }
    }
}

/// Villagers first, then seer, hunter and werewolf.
pub open spec fn role_rank(r: WerewolfRole) -> int {
    match r {
        WerewolfRole::Villager => 0,
        WerewolfRole::Seer => 1,
        WerewolfRole::Hunter => 2,
        WerewolfRole::Werewolf => 3,
    }
}

/// Player cards (by number) come before role cards (by rank).
pub open spec fn card_lt(a: WerewolfCard, b: WerewolfCard) -> bool {
    match (a, b) {
        (WerewolfCard::Player(x), WerewolfCard::Player(y)) => x < y,
        (WerewolfCard::Player(_), WerewolfCard::Role(_)) => true,
        (WerewolfCard::Role(_), WerewolfCard::Player(_)) => false,
        (WerewolfCard::Role(x), WerewolfCard::Role(y)) => role_rank(x) < role_rank(y),
    }
}

pub open spec fn card_order(a: WerewolfCard, b: WerewolfCard) -> Ordering {
    if card_lt(a, b) {
        Ordering::Less
    } else if a == b {
        Ordering::Equal
    } else {
        Ordering::Greater
    }
}

impl PartialOrd for WerewolfCard {
    fn partial_cmp(&self, other: &Self) -> (r: Option<Ordering>) {
        Some(card_cmp(self, other))
    }
}

impl PartialOrdSpecImpl for WerewolfCard {
    open spec fn obeys_partial_cmp_spec() -> bool {
        true
    }

    open spec fn partial_cmp_spec(&self, other: &Self) -> Option<Ordering> {
        Some(card_order(*self, *other))
    }
}

/// How two cards compare.
pub fn card_cmp(a: &WerewolfCard, b: &WerewolfCard) -> (r: Ordering)
    ensures
        r == card_order(*a, *b),
{
    match (a, b) {
        (WerewolfCard::Player(x), WerewolfCard::Player(y)) => if *x < *y {
            Ordering::Less
        } else if *x == *y {
            Ordering::Equal
        } else {
            Ordering::Greater
        },
        (WerewolfCard::Player(_), WerewolfCard::Role(_)) => Ordering::Less,
        (WerewolfCard::Role(_), WerewolfCard::Player(_)) => Ordering::Greater,
        (WerewolfCard::Role(x), WerewolfCard::Role(y)) => {
            let rx = role_index(x);
            let ry = role_index(y);
            if rx < ry {
                Ordering::Less
            } else if rx == ry {
                Ordering::Equal
            } else {
                Ordering::Greater
            }
        },
    }
}

fn role_index(r: &WerewolfRole) -> (n: u8)
    ensures
        n == role_rank(*r),
{
    match r {
        WerewolfRole::Villager => 0,
        WerewolfRole::Seer => 1,
        WerewolfRole::Hunter => 2,
        WerewolfRole::Werewolf => 3,
    }
}

/// The card order is a strict total order.
pub proof fn lemma_card_order(a: WerewolfCard, b: WerewolfCard, c: WerewolfCard)
    ensures
        !card_lt(a, a),
        card_lt(a, b) ==> !card_lt(b, a),
        card_lt(a, b) && card_lt(b, c) ==> card_lt(a, c),
        a == b || card_lt(a, b) || card_lt(b, a),
{
    match (a, b) {
        (WerewolfCard::Role(x), WerewolfCard::Role(y)) => {
            if role_rank(x) == role_rank(y) {
                assert(x == y);
            }
        },
        _ => {},
    }
}

/// Comparing in either order gives opposite answers.
pub proof fn lemma_card_order_flips(a: WerewolfCard, b: WerewolfCard)
    ensures
        card_order(a, b) == Ordering::Less <==> card_order(b, a) == Ordering::Greater,
        card_order(a, b) == Ordering::Equal <==> a == b,
{
    lemma_card_order(a, b, a);
    lemma_card_order(b, a, b);
}

impl WerewolfCard {
    /// The player number of a player card.
    pub fn unwrap_player(self) -> (n: usize)
        requires
            self is Player,
        ensures
            n == self->Player_0,
    {
        match self {
            WerewolfCard::Player(v) => v,
            WerewolfCard::Role(_) => 0,
        }
    }

    /// The role of a role card.
    pub fn unwrap_role(self) -> (r: WerewolfRole)
        requires
            self is Role,
        ensures
            r == self->Role_0,
    {
        match self {
            WerewolfCard::Role(v) => v,
            WerewolfCard::Player(_) => WerewolfRole::Villager,
        }
    }
}

/// A card as the game shows it: a player's number or the role's name.
pub open spec fn card_text(c: WerewolfCard) -> Seq<char> {
    match c {
        WerewolfCard::Role(WerewolfRole::Villager) => "村人"@,
        WerewolfCard::Role(WerewolfRole::Seer) => "占い師"@,
        WerewolfCard::Role(WerewolfRole::Hunter) => "狩人"@,
        WerewolfCard::Role(WerewolfRole::Werewolf) => "人狼"@,
        WerewolfCard::Player(v) => decimal(v as nat),
    }
}

pub fn card_to_string(c: &WerewolfCard) -> (s: String)
    ensures
        s@ == card_text(*c),
{
    match c {
        WerewolfCard::Role(WerewolfRole::Villager) => "村人".to_owned(),
        WerewolfCard::Role(WerewolfRole::Seer) => "占い師".to_owned(),
        WerewolfCard::Role(WerewolfRole::Hunter) => "狩人".to_owned(),
        WerewolfCard::Role(WerewolfRole::Werewolf) => "人狼".to_owned(),
        WerewolfCard::Player(v) => usize_to_decimal(*v),
    }
}

} // verus!
