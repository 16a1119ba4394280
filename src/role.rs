//! The role catalog: each role's team and the two predicates derived from it.
use vstd::prelude::*;

verus! {

/// The sides that a game can be won by.
#[derive(Debug, Clone, Copy, PartialEq, Eq, Structural)]
pub enum Team {
    Town,
    Mafia,
    Rogue,
}

/// A player's secret role. `Executioner` is keyed to the raw id of the player
/// it wants to see eliminated.
#[derive(Debug, Clone, Copy, PartialEq, Eq, Structural)]
pub enum Role {
    Town,
    Cop,
    Doctor,
    Celebrity,
    Miller,
    Mason,
    Idiot,
    Mafia,
    Godfather,
    Stripper,
    Goon,
    Survivor,
    Executioner(u64),
}

/// The team that a role plays for.
pub open spec fn team_of(r: Role) -> Team {
    match r {
        Role::Mafia | Role::Godfather | Role::Stripper | Role::Goon => Team::Mafia,
        Role::Survivor | Role::Executioner(_) => Team::Rogue,
        _ => Team::Town,
    }
}

/// Whether a role acts on its own at night (the Mafia's shared kill is not
/// counted here: it is one slot for the whole faction).
pub open spec fn acts_at_night(r: Role) -> bool {
    match r {
        Role::Cop | Role::Doctor | Role::Stripper => true,
        _ => false,
    }
}

/// What a cop learns of a role: the Godfather reads as innocent, the Miller as
/// guilty, every other role as its team says.
pub open spec fn reads_as_mafia(r: Role) -> bool {
    match r {
        Role::Godfather => false,
        Role::Miller => true,
        _ => team_of(r) == Team::Mafia,
    }
}

impl Role {
    pub fn team(&self) -> (t: Team)
        ensures
            t == team_of(*self),
    {
        match self {
            Role::Mafia | Role::Godfather | Role::Stripper | Role::Goon => Team::Mafia,
            Role::Survivor | Role::Executioner(_) => Team::Rogue,
            _ => Team::Town,
        }
    }

    pub fn has_night_action(&self) -> (b: bool)
        ensures
            b == acts_at_night(*self),
    {
        match self {
            Role::Cop | Role::Doctor | Role::Stripper => true,
            _ => false,
        }
    }

    pub fn investigated_as_mafia(&self) -> (b: bool)
        ensures
            b == reads_as_mafia(*self),
    {
        match self {
            Role::Godfather => false,
            Role::Miller => true,
            _ => self.team() == Team::Mafia,
        }
    }
}

} // verus!
