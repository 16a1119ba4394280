//! A player record of the roster.
use vstd::prelude::*;
use crate::role::Role;

verus! {

/// A player: the caller's raw id, a display name and a secret role.
#[derive(Debug, Clone, PartialEq, Eq)]
pub struct Player {
    pub raw_pid: u64,
    pub name: String,
    pub role: Role,
}

/// What a player is, with the name as a sequence of characters.
pub ghost struct PlayerView {
    pub raw_pid: u64,
    pub name: Seq<char>,
    pub role: Role,
}

impl View for Player {
    type V = PlayerView;

    open spec fn view(&self) -> PlayerView {
        PlayerView { raw_pid: self.raw_pid, name: self.name@, role: self.role }
    }
}

impl Player {
    pub fn new(raw_pid: u64, name: String, role: Role) -> (p: Player)
        ensures
            p@ == (PlayerView { raw_pid, name: name@, role }),
    {
        Player { raw_pid, name, role }
    }

    pub fn copy(&self) -> (p: Player)
        ensures
            p@ == self@,
    {
        Player { raw_pid: self.raw_pid, name: self.name.clone(), role: self.role }
    }
}

/// The roster as a sequence of player views.
pub open spec fn roster_view(players: Seq<Player>) -> Seq<PlayerView> {
    players.map_values(|p: Player| p@)
}

} // verus!
