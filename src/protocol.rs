//! Ballots, night actors and targets, parametrised by how a player is named:
//! a raw id as the caller sends it, or a position in the roster (`Pidx`).
//! Also the commands that a caller sends in.
use vstd::prelude::*;
use crate::role::Team;

verus! {

/// A player's position in the live roster. It is only valid until the next
/// elimination, which shifts every later position down by one.
pub type Pidx = usize;

/// A day vote: for a player, to abstain, or to withdraw a vote already cast.
#[derive(Debug, Clone, Copy, PartialEq, Eq, Structural)]
pub enum Ballot<P> {
    Player(P),
    Abstain,
    Retract,
}

/// Who acts at night: a player using their role's own action, or a member of
/// the Mafia submitting the faction's single shared kill.
#[derive(Debug, Clone, Copy, PartialEq, Eq, Structural)]
pub enum Actor<P> {
    Player(P),
    Mafia(P),
}

/// The object of a night action. `Blocked` is produced only by the engine
/// itself and is never accepted from a caller.
#[derive(Debug, Clone, Copy, PartialEq, Eq, Structural)]
pub enum Target<P> {
    Player(P),
    NoTarget,
    Blocked,
}

/// Who won: a whole team, or a single player.
#[derive(Debug, Clone, Copy, PartialEq, Eq, Structural)]
pub enum Winner {
    Team(Team),
    Player(Pidx),
}

/// A command as the caller sends it, naming players by raw id. A missing
/// ballot withdraws the vote; a missing target means "no target".
#[derive(Debug, Clone, Copy, PartialEq, Eq, Structural)]
pub enum Command {
    Vote(u64, Option<Ballot<u64>>),
    Action(Actor<u64>, Option<Target<u64>>),
}

/// A command together with an opaque tag that the caller uses to correlate
/// the responses with it.
#[derive(Debug, Clone, Copy, PartialEq, Eq, Structural)]
pub struct Request {
    pub cmd: Command,
    pub source: u64,
}

/// The player behind an actor.
pub open spec fn actor_pid(a: Actor<Pidx>) -> Pidx {
    match a {
        Actor::Player(p) => p,
        Actor::Mafia(p) => p,
    }
}

/// Two submissions occupy the same slot: the same player's own action, or
/// any two Mafia submissions (the faction has one slot).
pub open spec fn overlaps(a: Actor<Pidx>, b: Actor<Pidx>) -> bool {
    match (a, b) {
        (Actor::Player(x), Actor::Player(y)) => x == y,
        (Actor::Mafia(_), Actor::Mafia(_)) => true,
        _ => false,
    }
}

impl Actor<Pidx> {
    pub fn pid(&self) -> (p: Pidx)
        ensures
            p == actor_pid(*self),
    {
        match self {
            Actor::Player(p) => *p,
            Actor::Mafia(p) => *p,
        }
    }

    pub fn overlaps(&self, other: &Actor<Pidx>) -> (b: bool)
        ensures
            b == overlaps(*self, *other),
    {
        match (self, other) {
            (Actor::Player(x), Actor::Player(y)) => *x == *y,
            (Actor::Mafia(_), Actor::Mafia(_)) => true,
            _ => false,
        }
    }

    pub fn is_mafia(&self) -> (b: bool)
        ensures
            b == (*self is Mafia),
    {
        match self {
            Actor::Mafia(_) => true,
            _ => false,
        }
    }
}

} // verus!
