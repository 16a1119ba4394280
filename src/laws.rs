//! Laws of the engine, stated over the same spec functions that the contract
//! of `Game::handle` uses, and proved.
use vstd::prelude::*;
use crate::event::EventView;
use crate::game::{
    GameView, action_step, dawn_outcome, next_no, eliminate_then, find_pidx, game_ok, resolve_actor, resolve_ballot,
    resolve_target, stored_target, tally_after, vote_step,
};
use crate::night::{
    block_mafia_at, count_mafia, count_slot, declared, lemma_declared_after_block,
    lemma_mafia_action_after_block, lemma_resubmit_keeps_one_each, mafia_action, one_action_each,
    required_slots, save_one, save_stage, strip_one, strip_stage, without_slot,
};
use crate::role::Role;
use crate::phase::PhaseView;
use crate::player::PlayerView;
use crate::protocol::{Actor, Ballot, Pidx, Target, Winner};
use crate::role::Team;
use crate::tally::{
    electors_of, former_ballot, lemma_recast_keeps_one_each, one_ballot_each, threshold,
    without_voter,
};

verus! {

/// After any day vote no voter holds more than one live ballot, and the count
/// that the vote reports is the number of live ballots equal to the one just
/// cast.
pub proof fn law_one_live_ballot_per_voter(g: GameView, v: u64, b: Ballot<u64>)
    requires
        game_ok(g),
        g.phase is Day,
    ensures
        match (find_pidx(g.players, v), resolve_ballot(g.players, b)) {
            (Some(voter), Some(ballot)) => {
                let votes = g.phase->Day_votes;
                let live = tally_after(votes, voter, ballot);
                &&& one_ballot_each(live)
                &&& vote_step(g, v, b).0.phase is Day ==> vote_step(g, v, b).0.phase->Day_votes
                    == live
                &&& !(ballot is Retract) ==> vote_step(g, v, b).1[0] == (EventView::Vote {
                    voter,
                    ballot,
                    former: former_ballot(votes, voter),
                    count: electors_of(live, ballot).len() as usize,
                    threshold: threshold(g.players.len(), ballot) as usize,
                })
            },
            _ => true,
        },
{
    if let (Some(voter), Some(ballot)) = (
        find_pidx(g.players, v),
        resolve_ballot(g.players, b),
    ) {
        lemma_recast_keeps_one_each(g.phase->Day_votes, voter, ballot);
    }
}

/// A vote for a player elects once `N/2 + 1` live ballots match it among `N`
/// players; a vote to abstain once `(N + 1)/2` do. The election is reported
/// right after the vote.
pub proof fn law_election_threshold(g: GameView, v: u64, b: Ballot<u64>)
    requires
        game_ok(g),
        g.phase is Day,
    ensures
        match (find_pidx(g.players, v), resolve_ballot(g.players, b)) {
            (Some(voter), Some(ballot)) => !(ballot is Retract) ==> {
                let live = tally_after(g.phase->Day_votes, voter, ballot);
                let n = g.players.len();
                let count = electors_of(live, ballot).len();
                &&& threshold(n, ballot) == (if ballot is Player {
                    n / 2 + 1
                } else {
                    (n + 1) / 2
                })
                &&& (vote_step(g, v, b).1.len() > 1 <==> count >= threshold(n, ballot))
                &&& count >= threshold(n, ballot) ==> vote_step(g, v, b).1[1] == (
                EventView::Election { electors: electors_of(live, ballot), ballot })
            },
            _ => true,
        },
{
}

/// Withdrawing a vote takes the voter's ballot out, reports it, and never
/// leads to an election.
pub proof fn law_retract_never_elects(g: GameView, v: u64)
    requires
        game_ok(g),
        g.phase is Day,
        find_pidx(g.players, v) is Some,
    ensures
        ({
            let voter = find_pidx(g.players, v)->Some_0;
            let votes = g.phase->Day_votes;
            vote_step(g, v, Ballot::Retract) == (
                GameView {
                    players: g.players,
                    phase: PhaseView::Day {
                        day_no: g.phase->Day_day_no,
                        votes: without_voter(votes, voter),
                    },
                },
                seq![EventView::RetractVote { voter, former: former_ballot(votes, voter) }],
            )
        }),
{
}

/// A night ends in dawn exactly when the live actions fill every slot: one
/// for each player who acts on their own and one for the whole Mafia. Each
/// slot holds one action, and every Mafia member's submission lands in the
/// same slot.
pub proof fn law_night_readiness(g: GameView, a: Actor<u64>, t: Target<u64>)
    requires
        game_ok(g),
        g.phase is Night,
        resolve_actor(g.players, a) is Some,
        resolve_target(g.players, t) is Some,
    ensures
        ({
            let actor = resolve_actor(g.players, a)->Some_0;
            let target = resolve_target(g.players, t)->Some_0;
            let acts = without_slot(g.phase->Night_actions, actor).push(
                (actor, stored_target(g.players, actor, target)),
            );
            &&& one_action_each(acts)
            &&& forall|x: Pidx, y: Pidx|
                #[trigger] count_slot(acts, Actor::Mafia(x)) == #[trigger] count_slot(
                    acts,
                    Actor::Mafia(y),
                ) <= 1
            &&& (action_step(g, a, t).0.phase is Night <==> acts.len() != required_slots(
                g.players,
            ))
        }),
{
    let actor = resolve_actor(g.players, a)->Some_0;
    let target = resolve_target(g.players, t)->Some_0;
    let acts = without_slot(g.phase->Night_actions, actor).push(
        (actor, stored_target(g.players, actor, target)),
    );
    lemma_resubmit_keeps_one_each(g.phase->Night_actions, actor, stored_target(g.players, actor, target));
    assert forall|x: Pidx, y: Pidx|
        #[trigger] count_slot(acts, Actor::Mafia(x)) == #[trigger] count_slot(
            acts,
            Actor::Mafia(y),
        ) by {
        lemma_mafia_slot_shared(acts, x, y);
    }
}

proof fn lemma_mafia_slot_shared(actions: Seq<(Actor<Pidx>, Target<Pidx>)>, x: Pidx, y: Pidx)
    ensures
        count_slot(actions, Actor::Mafia(x)) == count_slot(actions, Actor::Mafia(y)),
    decreases actions.len(),
{
    if actions.len() > 0 {
        lemma_mafia_slot_shared(actions.drop_last(), x, y);
    }
}

/// A stripper visiting a doctor cancels the doctor's save: the strip runs
/// first and blocks the doctor's action, so the save that follows does
/// nothing, whatever the Mafia aimed at.
pub proof fn law_strip_cancels_save(
    actions: Seq<(Actor<Pidx>, Target<Pidx>)>,
    stripper: Pidx,
    doctor: Pidx,
)
    requires
        declared(actions, stripper) == Some(Target::Player(doctor)),
        declared(actions, doctor) is Some,
    ensures
        save_one(strip_one(actions, stripper).0, doctor) == (
            strip_one(actions, stripper).0,
            Seq::<EventView>::empty(),
        ),
{
    lemma_declared_after_block(actions, doctor);
}

/// A stripper visiting the member of the Mafia who submitted its kill blocks
/// the kill.
pub proof fn law_strip_cancels_kill(
    actions: Seq<(Actor<Pidx>, Target<Pidx>)>,
    stripper: Pidx,
    killer: Pidx,
)
    requires
        declared(actions, stripper) == Some(Target::Player(killer)),
        mafia_action(actions) matches Some((Actor::Mafia(k), _)) && k == killer,
    ensures
        mafia_action(strip_one(actions, stripper).0) == Some(
            (Actor::Mafia(killer), Target::<Pidx>::Blocked),
        ),
{
    lemma_mafia_action_after_block(actions, killer);
    let i = choose|i: int| 0 <= i < actions.len() && #[trigger] actions[i] == mafia_action(actions)->Some_0;
    assert(crate::protocol::actor_pid(actions[i].0) == killer);
}

/// No event of `evs` is a save by `doctor`.
pub open spec fn no_save_by(evs: Seq<EventView>, doctor: Pidx) -> bool {
    forall|k: int| 0 <= k < evs.len() && (#[trigger] evs[k]) is Save ==> evs[k]->Save_doctor != doctor
}

/// `stripper` is the one stripper of the roster.
pub open spec fn sole_stripper(players: Seq<PlayerView>, stripper: Pidx) -> bool {
    &&& stripper < players.len()
    &&& forall|j: int| 0 <= j < players.len() ==> (#[trigger] players[j].role == Role::Stripper
        <==> j == stripper)
}

/// In the dawn pipeline the strip stage runs before the save stage: when the
/// roster's stripper visits a doctor who acted, the save stage, run on what
/// the strip stage left, reports no save by that doctor, even where the
/// doctor's patient was the Mafia's target.
pub proof fn law_dawn_strip_before_save(
    players: Seq<PlayerView>,
    actions: Seq<(Actor<Pidx>, Target<Pidx>)>,
    stripper: Pidx,
    doctor: Pidx,
)
    requires
        sole_stripper(players, stripper),
        declared(actions, stripper) == Some(Target::Player(doctor)),
        declared(actions, doctor) is Some,
    ensures
        ({
            let n = players.len() as int;
            let stripped = strip_stage(players, actions, n).0;
            no_save_by(save_stage(players, stripped, n).1, doctor)
        }),
{
    let n = players.len() as int;
    lemma_sole_stripper_stage(players, actions, n, stripper);
    lemma_declared_after_block(actions, doctor);
    lemma_blocked_doctor_saves_nothing(players, strip_stage(players, actions, n).0, n, doctor);
}

/// In the dawn pipeline, when the roster's stripper visits the member of the
/// Mafia who submitted its kill, the kill is still blocked after the save
/// stage, so dawn reports no kill and eliminates nobody.
pub proof fn law_dawn_strip_cancels_kill(
    players: Seq<PlayerView>,
    night_no: usize,
    actions: Seq<(Actor<Pidx>, Target<Pidx>)>,
    stripper: Pidx,
    killer: Pidx,
)
    requires
        sole_stripper(players, stripper),
        declared(actions, stripper) == Some(Target::Player(killer)),
        mafia_action(actions) matches Some((Actor::Mafia(k), _)) && k == killer,
    ensures
        dawn_outcome(players, night_no, actions).0 == (GameView {
            players,
            phase: PhaseView::Day { day_no: next_no(night_no), votes: seq![] },
        }),
{
    let n = players.len() as int;
    lemma_sole_stripper_stage(players, actions, n, stripper);
    law_strip_cancels_kill(actions, stripper, killer);
    lemma_save_keeps_kill_blocked(players, strip_stage(players, actions, n).0, n, killer);
}

proof fn lemma_sole_stripper_stage(
    players: Seq<PlayerView>,
    actions: Seq<(Actor<Pidx>, Target<Pidx>)>,
    i: int,
    stripper: Pidx,
)
    requires
        sole_stripper(players, stripper),
        0 <= i <= players.len(),
    ensures
        strip_stage(players, actions, i) == (if i > stripper {
            strip_one(actions, stripper)
        } else {
            (actions, Seq::<EventView>::empty())
        }),
    decreases i,
{
    if i > 0 {
        lemma_sole_stripper_stage(players, actions, i - 1, stripper);
        assert(players[i - 1].role == Role::Stripper <==> i - 1 == stripper);
        if i - 1 == stripper {
            assert(Seq::<EventView>::empty() + strip_one(actions, stripper).1 =~= strip_one(
                actions,
                stripper,
            ).1);
        }
    }
}

proof fn lemma_declared_after_save(
    actions: Seq<(Actor<Pidx>, Target<Pidx>)>,
    x: Pidx,
    d: Pidx,
)
    ensures
        declared(block_mafia_at(actions, x), d) == declared(actions, d),
        mafia_action(block_mafia_at(actions, x)) is None <==> mafia_action(actions) is None,
        mafia_action(actions) is Some && mafia_action(actions)->Some_0.1 is Blocked ==> mafia_action(
            block_mafia_at(actions, x),
        ) == mafia_action(actions),
    decreases actions.len(),
{
    if actions.len() > 0 {
        let d0 = actions.drop_last();
        assert(block_mafia_at(actions, x).drop_last() =~= block_mafia_at(d0, x));
        lemma_declared_after_save(d0, x, d);
    }
}

proof fn lemma_blocked_doctor_saves_nothing(
    players: Seq<PlayerView>,
    actions: Seq<(Actor<Pidx>, Target<Pidx>)>,
    i: int,
    doctor: Pidx,
)
    requires
        declared(actions, doctor) == Some(Target::<Pidx>::Blocked),
    ensures
        declared(save_stage(players, actions, i).0, doctor) == Some(Target::<Pidx>::Blocked),
        no_save_by(save_stage(players, actions, i).1, doctor),
    decreases i,
{
    if i > 0 {
        lemma_blocked_doctor_saves_nothing(players, actions, i - 1, doctor);
        let (a, e) = save_stage(players, actions, i - 1);
        if players[i - 1].role == Role::Doctor {
            let (a2, e2) = save_one(a, (i - 1) as Pidx);
            if let Some(Target::Player(x)) = declared(a, (i - 1) as Pidx) {
                lemma_declared_after_save(a, x, doctor);
            }
            assert forall|k: int| 0 <= k < (e + e2).len() && (#[trigger] (e + e2)[k]) is Save implies (e
                + e2)[k]->Save_doctor != doctor by {
                if k < e.len() {
                    assert((e + e2)[k] == e[k]);
                } else {
                    assert((e + e2)[k] == e2[k - e.len()]);
                }
            }
        }
    }
}

proof fn lemma_save_keeps_kill_blocked(
    players: Seq<PlayerView>,
    actions: Seq<(Actor<Pidx>, Target<Pidx>)>,
    i: int,
    killer: Pidx,
)
    requires
        mafia_action(actions) == Some((Actor::Mafia(killer), Target::<Pidx>::Blocked)),
    ensures
        mafia_action(save_stage(players, actions, i).0) == Some(
            (Actor::Mafia(killer), Target::<Pidx>::Blocked),
        ),
    decreases i,
{
    if i > 0 {
        lemma_save_keeps_kill_blocked(players, actions, i - 1, killer);
        let a = save_stage(players, actions, i - 1).0;
        if players[i - 1].role == Role::Doctor {
            if let Some(Target::Player(x)) = declared(a, (i - 1) as Pidx) {
                lemma_declared_after_save(a, x, (i - 1) as Pidx);
            }
        }
    }
}

/// An elimination takes the player out and checks for a winner on what is
/// left: no Mafia left is a Town win, a Mafia at least as many as all the
/// players is a Mafia win, and either ends the game; otherwise the game goes
/// on to the next phase, whose votes or actions start empty.
pub proof fn law_elimination_checks_win(players: Seq<PlayerView>, p: Pidx, next: PhaseView)
    requires
        p < players.len(),
    ensures
        ({
            let rest = players.remove(p as int);
            let (g, evs) = eliminate_then(players, p, next);
            &&& g.players == rest
            &&& evs[0] == EventView::Eliminate { player: p }
            &&& count_mafia(rest) == 0 ==> g.phase == PhaseView::End(Winner::Team(Team::Town))
                && evs == seq![
                EventView::Eliminate { player: p },
                EventView::Win { winner: Winner::Team(Team::Town) },
                EventView::End,
            ]
            &&& 0 < count_mafia(rest) && count_mafia(rest) >= rest.len() ==> g.phase
                == PhaseView::End(Winner::Team(Team::Mafia))
            &&& 0 < count_mafia(rest) < rest.len() ==> g.phase == next
        }),
{
}

} // verus!
