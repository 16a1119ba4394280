//! What the engine reports back, one event per thing that happened.
use vstd::prelude::*;
use crate::phase::{Phase, PhaseView};
use crate::player::{Player, PlayerView, roster_view};
use crate::protocol::{Actor, Ballot, Pidx, Target, Winner};

verus! {

/// A ballot that reached its threshold, with the voters who cast it.
#[derive(Debug, Clone, PartialEq, Eq)]
pub struct Election {
    pub electors: Vec<Pidx>,
    pub ballot: Ballot<Pidx>,
}

#[derive(Debug, Clone, PartialEq, Eq)]
pub enum Event {
    Start { players: Vec<Player>, phase: Phase },
    Day { day_no: usize },
    Night { night_no: usize },
    Vote {
        voter: Pidx,
        ballot: Ballot<Pidx>,
        former: Option<Ballot<Pidx>>,
        count: usize,
        threshold: usize,
    },
    RetractVote { voter: Pidx, former: Option<Ballot<Pidx>> },
    Election { election: Election },
    Action { actor: Actor<Pidx>, target: Target<Pidx> },
    Dawn,
    Strip { stripper: Pidx, stripped: Pidx },
    Save { doctor: Pidx, saved: Pidx },
    Investigate { cop: Pidx, suspect: Pidx, mafia: bool },
    Kill { killer: Pidx, victim: Pidx },
    NoKill,
    Eliminate { player: Pidx },
    Win { winner: Winner },
    End,
    InvalidCommand,
}

/// An event with its collections as sequences.
pub ghost enum EventView {
    Start { players: Seq<PlayerView>, phase: PhaseView },
    Day { day_no: usize },
    Night { night_no: usize },
    Vote {
        voter: Pidx,
        ballot: Ballot<Pidx>,
        former: Option<Ballot<Pidx>>,
        count: usize,
        threshold: usize,
    },
    RetractVote { voter: Pidx, former: Option<Ballot<Pidx>> },
    Election { electors: Seq<Pidx>, ballot: Ballot<Pidx> },
    Action { actor: Actor<Pidx>, target: Target<Pidx> },
    Dawn,
    Strip { stripper: Pidx, stripped: Pidx },
    Save { doctor: Pidx, saved: Pidx },
    Investigate { cop: Pidx, suspect: Pidx, mafia: bool },
    Kill { killer: Pidx, victim: Pidx },
    NoKill,
    Eliminate { player: Pidx },
    Win { winner: Winner },
    End,
    InvalidCommand,
}

impl View for Event {
    type V = EventView;

    open spec fn view(&self) -> EventView {
        match self {
            Event::Start { players, phase } => EventView::Start {
                players: roster_view(players@),
                phase: phase@,
            },
            Event::Day { day_no } => EventView::Day { day_no: *day_no },
            Event::Night { night_no } => EventView::Night { night_no: *night_no },
            Event::Vote { voter, ballot, former, count, threshold } => EventView::Vote {
                voter: *voter,
                ballot: *ballot,
                former: *former,
                count: *count,
                threshold: *threshold,
            },
            Event::RetractVote { voter, former } => EventView::RetractVote {
                voter: *voter,
                former: *former,
            },
            Event::Election { election } => EventView::Election {
                electors: election.electors@,
                ballot: election.ballot,
            },
            Event::Action { actor, target } => EventView::Action { actor: *actor, target: *target },
            Event::Dawn => EventView::Dawn,
            Event::Strip { stripper, stripped } => EventView::Strip {
                stripper: *stripper,
                stripped: *stripped,
            },
            Event::Save { doctor, saved } => EventView::Save { doctor: *doctor, saved: *saved },
            Event::Investigate { cop, suspect, mafia } => EventView::Investigate {
                cop: *cop,
                suspect: *suspect,
                mafia: *mafia,
            },
            Event::Kill { killer, victim } => EventView::Kill { killer: *killer, victim: *victim },
            Event::NoKill => EventView::NoKill,
            Event::Eliminate { player } => EventView::Eliminate { player: *player },
            Event::Win { winner } => EventView::Win { winner: *winner },
            Event::End => EventView::End,
            Event::InvalidCommand => EventView::InvalidCommand,
        }
    }
}

/// An event together with the tag of the request that caused it.
#[derive(Debug, Clone, PartialEq, Eq)]
pub struct Response {
    pub event: Event,
    pub source: u64,
}

impl View for Response {
    type V = (EventView, u64);

    open spec fn view(&self) -> (EventView, u64) {
        (self.event@, self.source)
    }
}

/// A run of responses as views.
pub open spec fn responses_view(s: Seq<Response>) -> Seq<(EventView, u64)> {
    s.map_values(|r: Response| r@)
}

/// A run of events, each tagged with the same source.
pub open spec fn tagged(evs: Seq<EventView>, source: u64) -> Seq<(EventView, u64)> {
    evs.map_values(|e: EventView| (e, source))
}

pub proof fn lemma_tagged_concat(a: Seq<EventView>, b: Seq<EventView>, source: u64)
    ensures
        tagged(a + b, source) == tagged(a, source) + tagged(b, source),
{
    assert(tagged(a + b, source) =~= tagged(a, source) + tagged(b, source));
}

/// Appending `b` after `a` to responses `r` is appending `a + b`.
pub proof fn lemma_append_twice(
    r: Seq<(EventView, u64)>,
    a: Seq<EventView>,
    b: Seq<EventView>,
    source: u64,
)
    ensures
        r + tagged(a, source) + tagged(b, source) == r + tagged(a + b, source),
{
    lemma_tagged_concat(a, b, source);
    assert(r + tagged(a, source) + tagged(b, source) =~= r + (tagged(a, source) + tagged(b, source)));
}

/// Sends one event, tagged with the request's source.
pub fn emit(out: &mut Vec<Response>, source: u64, e: Event)
    ensures
        responses_view(final(out)@) == responses_view(old(out)@) + tagged(seq![e@], source),
{
    let ghost ev = e@;
    out.push(Response { event: e, source });
    assert(responses_view(out@) =~= responses_view(old(out)@) + tagged(seq![ev], source));
}

} // verus!
