//! The phases of a game. Day and Night own the votes and actions cast in them,
//! so those collections exist only while their phase lasts.
use vstd::prelude::*;
use crate::protocol::{Actor, Ballot, Pidx, Target, Winner};

verus! {

/// One voter's live ballot.
pub type Vote = (Pidx, Ballot<Pidx>);

/// One actor's live night action.
pub type NightAction = (Actor<Pidx>, Target<Pidx>);

#[derive(Debug, Clone, PartialEq, Eq)]
pub enum Phase {
    Init,
    Day { day_no: usize, votes: Vec<Vote> },
    Night { night_no: usize, actions: Vec<NightAction> },
    End(Winner),
}

/// A phase with its collection as a sequence.
pub ghost enum PhaseView {
    Init,
    Day { day_no: usize, votes: Seq<Vote> },
    Night { night_no: usize, actions: Seq<NightAction> },
    End(Winner),
}

impl View for Phase {
    type V = PhaseView;

    open spec fn view(&self) -> PhaseView {
        match self {
            Phase::Init => PhaseView::Init,
            Phase::Day { day_no, votes } => PhaseView::Day { day_no: *day_no, votes: votes@ },
            Phase::Night { night_no, actions } => PhaseView::Night {
                night_no: *night_no,
                actions: actions@,
            },
            Phase::End(w) => PhaseView::End(*w),
        }
    }
}

/// The same phase with its collection emptied.
pub open spec fn cleared(p: PhaseView) -> PhaseView {
    match p {
        PhaseView::Day { day_no, .. } => PhaseView::Day { day_no, votes: seq![] },
        PhaseView::Night { night_no, .. } => PhaseView::Night { night_no, actions: seq![] },
        _ => p,
    }
}

impl Phase {
    /// Empties the votes or actions of the current phase.
    pub fn clear(&mut self)
        ensures
            final(self)@ == cleared(old(self)@),
    {
        match self {
            Phase::Day { votes, .. } => votes.clear(),
            Phase::Night { actions, .. } => actions.clear(),
            _ => {},
        }
    }

    pub fn new_day(day_no: usize) -> (p: Phase)
        ensures
            p@ == (PhaseView::Day { day_no, votes: seq![] }),
    {
        Phase::Day { day_no, votes: Vec::new() }
    }

    pub fn new_night(night_no: usize) -> (p: Phase)
        ensures
            p@ == (PhaseView::Night { night_no, actions: seq![] }),
    {
        Phase::Night { night_no, actions: Vec::new() }
    }
}

} // verus!
