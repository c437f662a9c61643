//! Player roles as the server names them.

use vstd::prelude::*;

verus! {

#[derive(Debug, Clone, Copy, PartialEq, Eq, Structural)]
pub enum Role {
    Villager,
    Werewolf,
    Seer,
    Guard,
}

/// Display name of a role, in Japanese as shown to players.
pub open spec fn role_display_name(r: Role) -> Seq<char> {
    match r {
        Role::Villager => "村人"@,
        Role::Werewolf => "人狼"@,
        Role::Seer => "占い師"@,
        Role::Guard => "騎士"@,
    }
}

impl Role {
    /// The text a `Display` of the role shows.
    pub fn to_display_string(&self) -> (s: String)
        ensures
            s@ == role_display_name(*self),
    {
        match self {
            Role::Villager => "村人".to_owned(),
            Role::Werewolf => "人狼".to_owned(),
            Role::Seer => "占い師".to_owned(),
            Role::Guard => "騎士".to_owned(),
        }
    }
}

} // verus!
