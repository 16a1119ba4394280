//! Player actions as a front end phrases them, and their kinds.
use vstd::prelude::*;

verus! {

/// The kind of a player action.
#[derive(Debug, Clone, Copy, PartialEq, Eq, Structural)]
pub enum ActionKind {
    Vote,
    Retract,
    Reveal,
    Target,
    Mark,
}

/// Whom an action picks: a player, or nobody.
#[derive(Debug, Clone, Copy, PartialEq, Eq, Structural)]
pub enum Choice<P> {
    Player(P),
    Nobody,
}

/// A player action: a day vote (none withdraws it), a celebrity revealing
/// themselves, a role's night target, or the Mafia marking its victim.
#[derive(Debug, Clone, Copy, PartialEq, Eq, Structural)]
pub enum Action<P> {
    Vote { voter: P, ballot: Option<Choice<P>> },
    Reveal { celeb: P },
    Target { actor: P, target: Choice<P> },
    Mark { killer: P, mark: Choice<P> },
}

/// The kind of an action.
pub open spec fn kind_of<P>(a: Action<P>) -> ActionKind {
    match a {
        Action::Vote { .. } => ActionKind::Vote,
        Action::Reveal { .. } => ActionKind::Reveal,
        Action::Target { .. } => ActionKind::Target,
        Action::Mark { .. } => ActionKind::Mark,
    }
}

impl<P> Action<P> {
    pub fn kind(&self) -> (k: ActionKind)
        ensures
            k == kind_of(*self),
    {
        match self {
            Action::Vote { .. } => ActionKind::Vote,
            Action::Reveal { .. } => ActionKind::Reveal,
            Action::Target { .. } => ActionKind::Target,
            Action::Mark { .. } => ActionKind::Mark,
        }
    }
}

} // verus!
