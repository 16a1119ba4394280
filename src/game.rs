//! The game: its roster and phase, and the state machine that takes one
//! command at a time and reports what happened.
use vstd::prelude::*;
use crate::event::{
    Election,
    Event, EventView, Response, emit, lemma_append_twice, responses_view,
    tagged,
};
use crate::night::{
    actions_valid, count_acting, count_mafia, first_mafia_action, lemma_mafia_action_valid,
    lemma_save_stage_valid, lemma_strip_stage_valid, investigate_all, investigate_stage,
    lemma_resubmit_keeps_one_each, lemma_without_slot_valid, mafia_action, one_action_each,
    required_slots, save_all, save_stage, strip_all, strip_stage, take_slot, without_slot,
};
use crate::phase::{NightAction, Phase, PhaseView, Vote, cleared};
use crate::player::{Player, PlayerView, roster_view};
use crate::protocol::{Actor, Ballot, Command, Pidx, Request, Target, Winner, actor_pid};
use crate::role::{Role, Team, acts_at_night, team_of};
use crate::tally::{
    electors, electors_of, former_ballot, lemma_recast_keeps_one_each, one_ballot_each, take_vote,
    threshold, threshold_for, without_voter,
};

verus! {

/// A game: the live roster and the current phase.
#[derive(Debug)]
pub struct Game {
    players: Vec<Player>,
    phase: Phase,
}

/// What a game is: the roster as player views and the phase.
pub ghost struct GameView {
    pub players: Seq<PlayerView>,
    pub phase: PhaseView,
}

impl View for Game {
    type V = GameView;

    closed spec fn view(&self) -> GameView {
        GameView { players: roster_view(self.players@), phase: self.phase@ }
    }
}

/// The position of the first player with raw id `raw`.
pub open spec fn find_pidx(players: Seq<PlayerView>, raw: u64) -> Option<Pidx>
    decreases players.len(),
{
    if players.len() == 0 {
        None
    } else {
        let first = find_pidx(players.drop_last(), raw);
        if first is Some {
            first
        } else if players.last().raw_pid == raw {
            Some((players.len() - 1) as Pidx)
        } else {
            None
        }
    }
}

/// No two players share a raw id.
pub open spec fn unique_ids(players: Seq<PlayerView>) -> bool {
    forall|i: int, j: int|
        0 <= i < j < players.len() ==> #[trigger] players[i].raw_pid != #[trigger] players[j].raw_pid
}

/// The invariant of a game: raw ids are unique, the day's tally holds one
/// ballot per voter, and the night's actions one per slot, all naming live
/// players.
pub open spec fn game_ok(g: GameView) -> bool {
    &&& unique_ids(g.players)
    &&& match g.phase {
        PhaseView::Day { votes, .. } => one_ballot_each(votes),
        PhaseView::Night { actions, .. } => one_action_each(actions) && actions_valid(
            actions,
            g.players.len(),
        ),
        _ => true,
    }
}

/// The number of the phase after phase `n`; it stays at the largest value.
pub open spec fn next_no(n: usize) -> usize {
    if n < usize::MAX {
        (n + 1) as usize
    } else {
        n
    }
}

/// Who has won with this roster: Town once no Mafia is left, the Mafia once it
/// is at least as many as all the players, else nobody yet.
pub open spec fn winner_of(players: Seq<PlayerView>) -> Option<Winner> {
    if count_mafia(players) == 0 {
        Some(Winner::Team(Team::Town))
    } else if count_mafia(players) >= players.len() {
        Some(Winner::Team(Team::Mafia))
    } else {
        None
    }
}

/// The event that announces a phase.
pub open spec fn announce(p: PhaseView) -> EventView {
    match p {
        PhaseView::Day { day_no, .. } => EventView::Day { day_no },
        PhaseView::Night { night_no, .. } => EventView::Night { night_no },
        _ => EventView::End,
    }
}

/// Player `p` is taken out of the roster; the game ends if that decides it,
/// else it moves on to `next`.
pub open spec fn eliminate_then(players: Seq<PlayerView>, p: Pidx, next: PhaseView) -> (
    GameView,
    Seq<EventView>,
) {
    let rest = players.remove(p as int);
    match winner_of(rest) {
        Some(w) => (
            GameView { players: rest, phase: PhaseView::End(w) },
            seq![EventView::Eliminate { player: p }, EventView::Win { winner: w }, EventView::End],
        ),
        None => (
            GameView { players: rest, phase: next },
            seq![EventView::Eliminate { player: p }, announce(next)],
        ),
    }
}

/// An accepted day vote of `voter` for `ballot`, during day `day_no`.
pub open spec fn vote_outcome(
    players: Seq<PlayerView>,
    day_no: usize,
    votes: Seq<Vote>,
    voter: Pidx,
    ballot: Ballot<Pidx>,
) -> (GameView, Seq<EventView>) {
    let former = former_ballot(votes, voter);
    let rest = without_voter(votes, voter);
    if ballot is Retract {
        (
            GameView { players, phase: PhaseView::Day { day_no, votes: rest } },
            seq![EventView::RetractVote { voter, former }],
        )
    } else {
        let cast = rest.push((voter, ballot));
        let el = electors_of(cast, ballot);
        let th = threshold(players.len(), ballot);
        let ev = EventView::Vote {
            voter,
            ballot,
            former,
            count: el.len() as usize,
            threshold: th as usize,
        };
        if el.len() < th {
            (GameView { players, phase: PhaseView::Day { day_no, votes: cast } }, seq![ev])
        } else {
            let night = PhaseView::Night { night_no: next_no(day_no), actions: seq![] };
            let pre = seq![ev, EventView::Election { electors: el, ballot }];
            match ballot {
                Ballot::Player(p) => {
                    let (g2, e2) = eliminate_then(players, p, night);
                    (g2, pre + e2)
                },
                _ => (GameView { players, phase: night }, pre.push(announce(night))),
            }
        }
    }
}

/// The dawn of night `night_no`: strip, save, investigate, then the kill.
pub open spec fn dawn_outcome(
    players: Seq<PlayerView>,
    night_no: usize,
    actions: Seq<NightAction>,
) -> (GameView, Seq<EventView>) {
    let n = players.len() as int;
    let (a1, e1) = strip_stage(players, actions, n);
    let (a2, e2) = save_stage(players, a1, n);
    let e3 = investigate_stage(players, a2, n);
    let pre = seq![EventView::Dawn] + e1 + e2 + e3;
    let day = PhaseView::Day { day_no: next_no(night_no), votes: seq![] };
    match mafia_action(a2) {
        Some((Actor::Mafia(k), Target::Player(v))) => {
            let (g2, e4) = eliminate_then(players, v, day);
            (g2, pre + seq![EventView::Kill { killer: k, victim: v }] + e4)
        },
        _ => (GameView { players, phase: day }, pre + seq![EventView::NoKill, announce(day)]),
    }
}

/// The target actually stored for a submission: a Goon's kill is always
/// blocked.
pub open spec fn stored_target(
    players: Seq<PlayerView>,
    actor: Actor<Pidx>,
    target: Target<Pidx>,
) -> Target<Pidx> {
    if actor is Mafia && players[actor_pid(actor) as int].role == Role::Goon {
        Target::Blocked
    } else {
        target
    }
}

/// An accepted night action of `actor` against `target`, during night
/// `night_no`; dawn follows once every slot is filled.
pub open spec fn action_outcome(
    players: Seq<PlayerView>,
    night_no: usize,
    actions: Seq<NightAction>,
    actor: Actor<Pidx>,
    target: Target<Pidx>,
) -> (GameView, Seq<EventView>) {
    let t = stored_target(players, actor, target);
    let acts = without_slot(actions, actor).push((actor, t));
    let evs = if t is Blocked {
        seq![]
    } else {
        seq![EventView::Action { actor, target: t }]
    };
    if acts.len() != required_slots(players) {
        (GameView { players, phase: PhaseView::Night { night_no, actions: acts } }, evs)
    } else {
        let (g2, e2) = dawn_outcome(players, night_no, acts);
        (g2, evs + e2)
    }
}

/// A ballot as the caller sent it, with its player found in the roster.
pub open spec fn resolve_ballot(players: Seq<PlayerView>, b: Ballot<u64>) -> Option<Ballot<Pidx>> {
    match b {
        Ballot::Player(raw) => match find_pidx(players, raw) {
            Some(p) => Some(Ballot::Player(p)),
            None => None,
        },
        Ballot::Abstain => Some(Ballot::Abstain),
        Ballot::Retract => Some(Ballot::Retract),
    }
}

/// A day vote as the caller sent it: an unknown voter or player is refused.
pub open spec fn vote_step(g: GameView, v: u64, b: Ballot<u64>) -> (GameView, Seq<EventView>) {
    match (g.phase, find_pidx(g.players, v), resolve_ballot(g.players, b)) {
        (PhaseView::Day { day_no, votes }, Some(voter), Some(ballot)) => vote_outcome(
            g.players,
            day_no,
            votes,
            voter,
            ballot,
        ),
        _ => (g, seq![EventView::InvalidCommand]),
    }
}

/// The tally after `voter` casts `ballot`.
pub open spec fn tally_after(votes: Seq<Vote>, voter: Pidx, ballot: Ballot<Pidx>) -> Seq<Vote> {
    if ballot is Retract {
        without_voter(votes, voter)
    } else {
        without_voter(votes, voter).push((voter, ballot))
    }
}

/// The event that reports a vote.
pub open spec fn vote_event(n: nat, votes: Seq<Vote>, voter: Pidx, ballot: Ballot<Pidx>) -> EventView {
    let former = former_ballot(votes, voter);
    if ballot is Retract {
        EventView::RetractVote { voter, former }
    } else {
        EventView::Vote {
            voter,
            ballot,
            former,
            count: electors_of(tally_after(votes, voter, ballot), ballot).len() as usize,
            threshold: threshold(n, ballot) as usize,
        }
    }
}

/// The vote elects its ballot.
pub open spec fn elects(n: nat, votes: Seq<Vote>, voter: Pidx, ballot: Ballot<Pidx>) -> bool {
    !(ballot is Retract) && electors_of(tally_after(votes, voter, ballot), ballot).len()
        >= threshold(n, ballot)
}

/// What an election leads to on day `day_no`.
pub open spec fn election_outcome(
    players: Seq<PlayerView>,
    day_no: usize,
    electors: Seq<Pidx>,
    ballot: Ballot<Pidx>,
) -> (GameView, Seq<EventView>) {
    let night = PhaseView::Night { night_no: next_no(day_no), actions: seq![] };
    let pre = seq![EventView::Election { electors, ballot }];
    match ballot {
        Ballot::Player(p) => {
            let (g2, e2) = eliminate_then(players, p, night);
            (g2, pre + e2)
        },
        _ => (GameView { players, phase: night }, pre.push(announce(night))),
    }
}

/// What one command does to a game, and what is reported: votes are taken
/// by day, actions by night, and anything else is refused.
pub open spec fn step(g: GameView, cmd: Command) -> (GameView, Seq<EventView>) {
    match (cmd, g.phase) {
        (Command::Vote(v, b), PhaseView::Day { .. }) => vote_step(
            g,
            v,
            match b {
                Some(b) => b,
                None => Ballot::Retract,
            },
        ),
        (Command::Action(a, t), PhaseView::Night { .. }) => action_step(
            g,
            a,
            match t {
                Some(t) => t,
                None => Target::NoTarget,
            },
        ),
        _ => (g, seq![EventView::InvalidCommand]),
    }
}

/// A night actor as the caller sent it, with its player found in the roster
/// and allowed to act that way.
pub open spec fn resolve_actor(players: Seq<PlayerView>, a: Actor<u64>) -> Option<Actor<Pidx>> {
    match a {
        Actor::Player(raw) => match find_pidx(players, raw) {
            Some(p) => if acts_at_night(players[p as int].role) {
                Some(Actor::Player(p))
            } else {
                None
            },
            None => None,
        },
        Actor::Mafia(raw) => match find_pidx(players, raw) {
            Some(p) => if team_of(players[p as int].role) == Team::Mafia {
                Some(Actor::Mafia(p))
            } else {
                None
            },
            None => None,
        },
    }
}

/// A target as the caller sent it; `Blocked` is refused.
pub open spec fn resolve_target(players: Seq<PlayerView>, t: Target<u64>) -> Option<Target<Pidx>> {
    match t {
        Target::Player(raw) => match find_pidx(players, raw) {
            Some(p) => Some(Target::Player(p)),
            None => None,
        },
        Target::NoTarget => Some(Target::NoTarget),
        Target::Blocked => None,
    }
}

/// A night action as the caller sent it: an unknown or ineligible actor, or
/// an unknown target, is refused.
pub open spec fn action_step(g: GameView, a: Actor<u64>, t: Target<u64>) -> (
    GameView,
    Seq<EventView>,
) {
    match (g.phase, resolve_actor(g.players, a), resolve_target(g.players, t)) {
        (PhaseView::Night { night_no, actions }, Some(actor), Some(target)) => action_outcome(
            g.players,
            night_no,
            actions,
            actor,
            target,
        ),
        _ => (g, seq![EventView::InvalidCommand]),
    }
}

/// The roster that `Game::new` builds from a list: each player in order,
/// but one whose raw id is already taken.
pub open spec fn admitted(players: Seq<PlayerView>) -> Seq<PlayerView>
    decreases players.len(),
{
    if players.len() == 0 {
        seq![]
    } else {
        let rest = admitted(players.drop_last());
        if find_pidx(rest, players.last().raw_pid) is Some {
            rest
        } else {
            rest.push(players.last())
        }
    }
}

pub proof fn lemma_find_pidx(players: Seq<PlayerView>, raw: u64)
    requires
        players.len() <= usize::MAX,
    ensures
        find_pidx(players, raw) is Some <==> exists|i: int|
            0 <= i < players.len() && (#[trigger] players[i]).raw_pid == raw,
        find_pidx(players, raw) matches Some(i) ==> i < players.len() && players[i as int].raw_pid
            == raw && forall|j: int| 0 <= j < i ==> (#[trigger] players[j]).raw_pid != raw,
    decreases players.len(),
{
    if players.len() > 0 {
        let d = players.drop_last();
        lemma_find_pidx(d, raw);
        assert forall|i: int| 0 <= i < d.len() implies #[trigger] d[i] == players[i] by {}
        if exists|i: int| 0 <= i < players.len() && (#[trigger] players[i]).raw_pid == raw {
            let i = choose|i: int| 0 <= i < players.len() && (#[trigger] players[i]).raw_pid == raw;
            if i < players.len() - 1 {
                assert(d[i] == players[i]);
            }
        }
        if find_pidx(d, raw) is None {
            assert forall|j: int| 0 <= j < d.len() implies (#[trigger] players[j]).raw_pid != raw by {
                assert(d[j] == players[j]);
            }
        } else {
            let i = find_pidx(d, raw)->Some_0;
            assert forall|j: int| 0 <= j < i implies (#[trigger] players[j]).raw_pid != raw by {
                assert(d[j] == players[j]);
            }
        }
    }
}

/// A raw id that `find_pidx` does not find is held by nobody.
pub proof fn lemma_find_pidx_none(players: Seq<PlayerView>, raw: u64)
    ensures
        find_pidx(players, raw) is None ==> forall|i: int|
            0 <= i < players.len() ==> (#[trigger] players[i]).raw_pid != raw,
    decreases players.len(),
{
    if players.len() > 0 {
        let d = players.drop_last();
        lemma_find_pidx_none(d, raw);
        if find_pidx(players, raw) is None {
            assert forall|i: int| 0 <= i < players.len() implies (#[trigger] players[i]).raw_pid
                != raw by {
                if i < d.len() {
                    assert(d[i] == players[i]);
                }
            }
        }
    }
}

/// The first position holding `raw` is what `find_pidx` finds.
pub proof fn lemma_find_pidx_at(players: Seq<PlayerView>, raw: u64, i: int)
    requires
        players.len() <= usize::MAX,
        0 <= i < players.len(),
        players[i].raw_pid == raw,
        forall|j: int| 0 <= j < i ==> (#[trigger] players[j]).raw_pid != raw,
    ensures
        find_pidx(players, raw) == Some(i as Pidx),
{
    lemma_find_pidx(players, raw);
    let k = find_pidx(players, raw)->Some_0;
    if (k as int) < i {
        assert(players[k as int].raw_pid != raw);
    }
    if (k as int) > i {
        assert(players[i].raw_pid != raw);
    }
}

impl Game {
    /// Builds a game in its initial phase from a list of players; a player
    /// whose raw id is already taken is left out.
    pub fn new(players: Vec<Player>) -> (g: Game)
        ensures
            g.wf(),
            g@.phase == PhaseView::Init,
            g@.players == admitted(roster_view(players@)),
    {
        let mut game = Game { players: Vec::new(), phase: Phase::Init };
        let mut players = players;
        let ghost all = roster_view(players@);
        let ghost mut k: int = 0;
        assert(all.subrange(0, 0) =~= seq![]);
        assert(admitted(seq![]) == Seq::<PlayerView>::empty());
        assert(game@.players =~= seq![]);
        while players.len() > 0
            invariant
                0 <= k <= all.len(),
                roster_view(players@) == all.subrange(k, all.len() as int),
                game.wf(),
                game@.phase == PhaseView::Init,
                game@.players == admitted(all.subrange(0, k)),
            decreases players.len(),
        {
            let ghost before = game@.players;
            let ghost pre = roster_view(players@);
            let ghost pre_p = players@;
            let player = players.remove(0);
            assert(pre[0] == player@);
            assert(pre.len() == players@.len() + 1);
            assert(k < all.len());
            assert(all.subrange(k, all.len() as int)[0] == all[k]);
            assert(player@ == all[k]);
            assert(all.subrange(0, k + 1).drop_last() =~= all.subrange(0, k));
            assert(all.subrange(0, k + 1).last() == all[k]);
            let _ = game.add_player(player);
            proof {
                k = k + 1;
                assert forall|j: int| 0 <= j < players@.len() implies #[trigger] roster_view(
                    players@,
                )[j] == all.subrange(k, all.len() as int)[j] by {
                    assert(players@[j] == pre_p[j + 1]);
                    assert(pre[j + 1] == all.subrange(k - 1, all.len() as int)[j + 1]);
                }
                assert(roster_view(players@) =~= all.subrange(k, all.len() as int));
            }
        }
        assert(all.subrange(0, all.len() as int) =~= all);
        game
    }

    /// The invariant of the game.
    pub open spec fn wf(&self) -> bool {
        game_ok(self@)
    }

    /// Adds a player while the game has not started and their raw id is new.
    pub fn add_player(&mut self, player: Player) -> (r: Result<(), String>)
        requires
            old(self).wf(),
        ensures
            final(self).wf(),
            final(self)@.phase == old(self)@.phase,
            r is Ok <==> old(self)@.phase == PhaseView::Init && find_pidx(
                old(self)@.players,
                player@.raw_pid,
            ) is None,
            r is Ok ==> final(self)@.players == old(self)@.players.push(player@),
            r is Err ==> final(self)@.players == old(self)@.players,
            r matches Err(e) ==> e@ == (if old(self)@.phase == PhaseView::Init {
                "Player already exists"@
            } else {
                "Can't add player during game"@
            }),
    {
        if let Phase::Init = self.phase {
            match self.check_player(&player.raw_pid) {
                Ok(_) => Err("Player already exists".to_string()),
                Err(_) => {
                    let ghost pv = player@;
                    proof {
                        lemma_find_pidx_none(self@.players, pv.raw_pid);
                    }
                    self.players.push(player);
                    assert(self@.players =~= old(self)@.players.push(pv));
                    Ok(())
                },
            }
        } else {
            Err("Can't add player during game".to_string())
        }
    }

    /// The position of the player with raw id `raw_pid`.
    pub fn check_player(&self, raw_pid: &u64) -> (r: Result<Pidx, String>)
        ensures
            r is Ok <==> find_pidx(self@.players, *raw_pid) is Some,
            r matches Ok(p) ==> find_pidx(self@.players, *raw_pid) == Some(p) && p
                < self@.players.len(),
            r matches Err(e) ==> e@ == "Player not found"@,
    {
        let ghost rv = self@.players;
        let mut i: usize = 0;
        while i < self.players.len()
            invariant
                0 <= i <= self.players.len(),
                rv == roster_view(self.players@),
                find_pidx(rv.subrange(0, i as int), *raw_pid) is None,
            decreases self.players.len() - i,
        {
            assert(rv.subrange(0, i + 1).drop_last() =~= rv.subrange(0, i as int));
            if self.players[i].raw_pid == *raw_pid {
                proof {
                    lemma_find_pidx(rv.subrange(0, i as int), *raw_pid);
                    assert forall|j: int| 0 <= j < i implies (#[trigger] rv[j]).raw_pid
                        != *raw_pid by {
                        assert(rv.subrange(0, i as int)[j] == rv[j]);
                    }
                    lemma_find_pidx_at(rv, *raw_pid, i as int);
                }
                return Ok(i);
            }
            i += 1;
        }
        assert(rv.subrange(0, rv.len() as int) =~= rv);
        Err("Player not found".to_string())
    }

    /// Counts the Mafia left; if that decides the game, ends it.
    fn check_win(&mut self) -> (r: Option<Winner>)
        ensures
            final(self).players@ == old(self).players@,
            r == winner_of(old(self)@.players),
            final(self).phase@ == (match r {
                Some(w) => PhaseView::End(w),
                None => old(self).phase@,
            }),
    {
        let ghost rv = self@.players;
        let n_players = self.players.len();
        let mut n_mafia: usize = 0;
        let mut i: usize = 0;
        while i < self.players.len()
            invariant
                0 <= i <= self.players.len(),
                n_players == self.players.len(),
                rv == roster_view(self.players@),
                n_mafia <= i,
                n_mafia == count_mafia(rv.subrange(0, i as int)),
            decreases self.players.len() - i,
        {
            assert(rv.subrange(0, i + 1).drop_last() =~= rv.subrange(0, i as int));
            if self.players[i].role.team() == Team::Mafia {
                n_mafia += 1;
            }
            i += 1;
        }
        assert(rv.subrange(0, rv.len() as int) =~= rv);
        let winner = if n_mafia == 0 {
            Some(Winner::Team(Team::Town))
        } else if n_mafia >= n_players {
            Some(Winner::Team(Team::Mafia))
        } else {
            None
        };
        if let Some(w) = winner {
            self.phase = Phase::End(w);
        }
        winner
    }

    /// Takes player `p` out of the roster, empties the phase's votes or
    /// actions (every position is stale now) and checks for a winner.
    pub fn eliminate(&mut self, p: Pidx, source: u64, out: &mut Vec<Response>) -> (r: Option<Winner>)
        requires
            old(self).wf(),
            p < old(self)@.players.len(),
        ensures
            final(self).wf(),
            final(self)@.players == old(self)@.players.remove(p as int),
            r == winner_of(final(self)@.players),
            final(self)@.phase == (match r {
                Some(w) => PhaseView::End(w),
                None => cleared(old(self)@.phase),
            }),
            responses_view(final(out)@) == responses_view(old(out)@) + tagged(
                match r {
                    Some(w) => seq![
                        EventView::Eliminate { player: p },
                        EventView::Win { winner: w },
                        EventView::End,
                    ],
                    None => seq![EventView::Eliminate { player: p }],
                },
                source,
            ),
    {
        let ghost old_players = self.players@;
        emit(out, source, Event::Eliminate { player: p });
        self.players.remove(p);
        self.phase.clear();
        proof {
            assert(roster_view(self.players@) =~= roster_view(old_players).remove(p as int));
            lemma_remove_keeps_unique(roster_view(old_players), p as int);
        }
        let r = self.check_win();
        match r {
            Some(w) => {
                emit(out, source, Event::Win { winner: w });
                emit(out, source, Event::End);
                proof {
                    lemma_append_twice(
                        responses_view(old(out)@),
                        seq![EventView::Eliminate { player: p }],
                        seq![EventView::Win { winner: w }],
                        source,
                    );
                    lemma_append_twice(
                        responses_view(old(out)@),
                        seq![EventView::Eliminate { player: p }, EventView::Win { winner: w }],
                        seq![EventView::End],
                        source,
                    );
                    assert(seq![EventView::Eliminate { player: p }] + seq![EventView::Win { winner: w }]
                        =~= seq![EventView::Eliminate { player: p }, EventView::Win { winner: w }]);
                    assert(seq![EventView::Eliminate { player: p }, EventView::Win { winner: w }]
                        + seq![EventView::End] =~= seq![
                        EventView::Eliminate { player: p },
                        EventView::Win { winner: w },
                        EventView::End,
                    ]);
                }
            },
            None => {},
        }
        r
    }

    /// Starts the game: Day 1 for an odd roster, Night 1 for an even one.
    /// Returns the start event with the frozen roster and the first phase.
    pub fn start(&mut self) -> (r: Result<Event, ()>)
        requires
            old(self).wf(),
        ensures
            final(self).wf(),
            final(self)@.players == old(self)@.players,
            r is Ok <==> old(self)@.phase == PhaseView::Init,
            r is Err ==> final(self)@ == old(self)@,
            r matches Ok(e) ==> {
                &&& final(self)@.phase == first_phase(old(self)@.players.len())
                &&& e@ == (EventView::Start { players: old(self)@.players, phase: final(self)@.phase })
            },
    {
        match self.phase {
            Phase::Init => {},
            _ => return Err(()),
        }
        let even = self.players.len() % 2 == 0;
        let (phase, shown) = if !even {
            (Phase::new_day(1), Phase::new_day(1))
        } else {
            (Phase::new_night(1), Phase::new_night(1))
        };
        self.phase = phase;
        let mut players: Vec<Player> = Vec::new();
        let mut i: usize = 0;
        while i < self.players.len()
            invariant
                0 <= i <= self.players.len(),
                players@.len() == i,
                forall|j: int| 0 <= j < i ==> (#[trigger] players@[j])@ == self.players@[j]@,
            decreases self.players.len() - i,
        {
            let c = self.players[i].copy();
            players.push(c);
            i += 1;
        }
        assert(roster_view(players@) =~= roster_view(self.players@));
        Ok(Event::Start { players, phase: shown })
    }

    /// The raw ids of a vote, as positions.
    fn validate_vote(&self, v: u64, b: Ballot<u64>) -> (r: Result<(Pidx, Ballot<Pidx>), String>)
        ensures
            r is Ok <==> find_pidx(self@.players, v) is Some && resolve_ballot(self@.players, b) is Some,
            r matches Ok((voter, ballot)) ==> {
                &&& Some(voter) == find_pidx(self@.players, v)
                &&& Some(ballot) == resolve_ballot(self@.players, b)
                &&& voter < self@.players.len()
                &&& (ballot matches Ballot::Player(p) ==> p < self@.players.len())
            },
    {
        let voter = self.check_player(&v)?;
        let ballot = match b {
            Ballot::Player(raw_pid) => Ballot::Player(self.check_player(&raw_pid)?),
            Ballot::Abstain => Ballot::Abstain,
            Ballot::Retract => Ballot::Retract,
        };
        Ok((voter, ballot))
    }

    /// Records a vote in the day's tally, replacing the voter's former ballot,
    /// and reports it; returns the election if the ballot reached its
    /// threshold.
    fn accept_vote(
        &mut self,
        voter: Pidx,
        ballot: Ballot<Pidx>,
        source: u64,
        out: &mut Vec<Response>,
    ) -> (r: Option<Election>)
        requires
            old(self).wf(),
            old(self)@.phase is Day,
        ensures
            final(self).wf(),
            final(self)@.players == old(self)@.players,
            final(self)@.phase == (PhaseView::Day {
                day_no: old(self)@.phase->Day_day_no,
                votes: tally_after(old(self)@.phase->Day_votes, voter, ballot),
            }),
            responses_view(final(out)@) == responses_view(old(out)@) + tagged(
                seq![
                    vote_event(
                        old(self)@.players.len(),
                        old(self)@.phase->Day_votes,
                        voter,
                        ballot,
                    ),
                ],
                source,
            ),
            r is Some <==> elects(
                old(self)@.players.len(),
                old(self)@.phase->Day_votes,
                voter,
                ballot,
            ),
            r matches Some(e) ==> e.ballot == ballot && e.electors@ == electors_of(
                tally_after(old(self)@.phase->Day_votes, voter, ballot),
                ballot,
            ),
    {
        let n_players = self.players.len();
        let ghost votes0 = old(self)@.phase->Day_votes;
        proof {
            lemma_recast_keeps_one_each(votes0, voter, ballot);
        }
        match &mut self.phase {
            Phase::Day { votes, .. } => {
                let former = take_vote(votes, voter);
                match ballot {
                    Ballot::Retract => {
                        emit(out, source, Event::RetractVote { voter, former });
                        return None;
                    },
                    _ => {},
                }
                votes.push((voter, ballot));
                let threshold = threshold_for(n_players, ballot);
                let electors = electors(votes, ballot);
                let count = electors.len();
                emit(out, source, Event::Vote { voter, ballot, former, count, threshold });
                if count >= threshold {
                    Some(Election { electors, ballot })
                } else {
                    None
                }
            },
            _ => None,
        }
    }

    /// Announces an election and carries it out: the elected player is
    /// eliminated, and unless that ends the game the next night begins.
    fn resolve_election(&mut self, election: Election, source: u64, out: &mut Vec<Response>)
        requires
            old(self).wf(),
            old(self)@.phase is Day,
            !(election.ballot is Retract),
            election.ballot matches Ballot::Player(p) ==> p < old(self)@.players.len(),
        ensures
            final(self).wf(),
            final(self)@ == election_outcome(
                old(self)@.players,
                old(self)@.phase->Day_day_no,
                election.electors@,
                election.ballot,
            ).0,
            responses_view(final(out)@) == responses_view(old(out)@) + tagged(
                election_outcome(
                    old(self)@.players,
                    old(self)@.phase->Day_day_no,
                    election.electors@,
                    election.ballot,
                ).1,
                source,
            ),
    {
        let day_no = match self.phase {
            Phase::Day { day_no, .. } => day_no,
            _ => return ,
        };
        let ballot = election.ballot;
        let ghost el = election.electors@;
        let ghost pre = seq![EventView::Election { electors: el, ballot }];
        emit(out, source, Event::Election { election });
        let night_no = if day_no < usize::MAX {
            day_no + 1
        } else {
            day_no
        };
        match ballot {
            Ballot::Player(p) => {
                let w = self.eliminate(p, source, out);
                proof {
                    lemma_append_twice(
                        responses_view(old(out)@),
                        pre,
                        seq![EventView::Eliminate { player: p }],
                        source,
                    );
                }
                if w.is_some() {
                    proof {
                        lemma_append_twice(
                            responses_view(old(out)@),
                            pre,
                            eliminate_then(old(self)@.players, p, PhaseView::Night { night_no, actions: seq![] }).1,
                            source,
                        );
                    }
                    return ;
                }
                self.phase = Phase::new_night(night_no);
                emit(out, source, Event::Night { night_no });
                proof {
                    let e1 = seq![EventView::Eliminate { player: p }];
                    let e2 = seq![EventView::Night { night_no }];
                    lemma_append_twice(responses_view(old(out)@), pre, e1, source);
                    lemma_append_twice(responses_view(old(out)@), pre + e1, e2, source);
                    assert(pre + e1 + e2 =~= pre + (e1 + e2));
                    assert(e1 + e2 =~= seq![EventView::Eliminate { player: p }, EventView::Night { night_no }]);
                }
            },
            _ => {
                self.phase = Phase::new_night(night_no);
                emit(out, source, Event::Night { night_no });
                proof {
                    let e2 = seq![EventView::Night { night_no }];
                    lemma_append_twice(responses_view(old(out)@), pre, e2, source);
                    assert(pre + e2 =~= pre.push(EventView::Night { night_no }));
                }
            },
        }
    }

    /// Handles a day vote sent by the caller.
    fn handle_vote(&mut self, v: u64, b: Ballot<u64>, source: u64, out: &mut Vec<Response>)
        requires
            old(self).wf(),
            old(self)@.phase is Day,
        ensures
            final(self).wf(),
            final(self)@ == vote_step(old(self)@, v, b).0,
            responses_view(final(out)@) == responses_view(old(out)@) + tagged(
                vote_step(old(self)@, v, b).1,
                source,
            ),
    {
        let (voter, ballot) = match self.validate_vote(v, b) {
            Ok((voter, ballot)) => (voter, ballot),
            Err(_) => {
                emit(out, source, Event::InvalidCommand);
                return ;
            },
        };
        let ghost g0 = self@;
        let ghost n = g0.players.len();
        let ghost votes0 = g0.phase->Day_votes;
        let ghost day_no = g0.phase->Day_day_no;
        let ghost ev = vote_event(n, votes0, voter, ballot);
        let election = match self.accept_vote(voter, ballot, source, out) {
            Some(election) => election,
            None => {
                assert(self@ =~= vote_outcome(g0.players, day_no, votes0, voter, ballot).0);
                return ;
            },
        };
        let ghost el = election.electors@;
        self.resolve_election(election, source, out);
        proof {
            let e2 = election_outcome(g0.players, day_no, el, ballot).1;
            lemma_append_twice(responses_view(old(out)@), seq![ev], e2, source);
            assert(seq![ev] + e2 =~= vote_outcome(g0.players, day_no, votes0, voter, ballot).1);
        }
    }

    /// Handles a command during the day: only votes are taken.
    fn handle_day(&mut self, cmd: Command, source: u64, out: &mut Vec<Response>)
        requires
            old(self).wf(),
            old(self)@.phase is Day,
        ensures
            final(self).wf(),
            final(self)@ == step(old(self)@, cmd).0,
            responses_view(final(out)@) == responses_view(old(out)@) + tagged(
                step(old(self)@, cmd).1,
                source,
            ),
    {
        match cmd {
            Command::Vote(v, b) => {
                let b = match b {
                    Some(b) => b,
                    None => Ballot::Retract,
                };
                self.handle_vote(v, b, source, out)
            },
            _ => emit(out, source, Event::InvalidCommand),
        }
    }

    /// The raw ids of a night action, as positions, checking that the actor
    /// may act that way.
    fn validate_action(&self, a: Actor<u64>, t: Target<u64>) -> (r: Result<
        (Actor<Pidx>, Target<Pidx>),
        String,
    >)
        ensures
            r is Ok <==> resolve_actor(self@.players, a) is Some && resolve_target(self@.players, t) is Some,
            r matches Ok((actor, target)) ==> {
                &&& Some(actor) == resolve_actor(self@.players, a)
                &&& Some(target) == resolve_target(self@.players, t)
                &&& actor_pid(actor) < self@.players.len()
                &&& (target matches Target::Player(p) ==> p < self@.players.len())
            },
    {
        let actor = match a {
            Actor::Player(raw_pid) => Actor::Player(self.check_player(&raw_pid)?),
            Actor::Mafia(raw_pid) => Actor::Mafia(self.check_player(&raw_pid)?),
        };
        match actor {
            Actor::Player(p) => {
                if !self.players[p].role.has_night_action() {
                    return Err("Player does not have a night action".to_string());
                }
            },
            Actor::Mafia(p) => {
                if self.players[p].role.team() != Team::Mafia {
                    return Err("Only Mafia players can kill at night".to_string());
                }
            },
        }
        let target = match t {
            Target::Player(raw_pid) => Target::Player(self.check_player(&raw_pid)?),
            Target::NoTarget => Target::NoTarget,
            Target::Blocked => return Err("A target cannot be blocked by the caller".to_string()),
        };
        Ok((actor, target))
    }

    /// Whether `n` live actions fill every slot of the night.
    fn all_slots_filled(&self, n: usize) -> (r: bool)
        ensures
            r == (n == required_slots(self@.players)),
    {
        let ghost rv = self@.players;
        let mut n_acting: usize = 0;
        let mut n_mafia: usize = 0;
        let mut i: usize = 0;
        while i < self.players.len()
            invariant
                0 <= i <= self.players.len(),
                rv == roster_view(self.players@),
                n_acting <= i,
                n_mafia <= i,
                n_acting == count_acting(rv.subrange(0, i as int)),
                n_mafia == count_mafia(rv.subrange(0, i as int)),
            decreases self.players.len() - i,
        {
            assert(rv.subrange(0, i + 1).drop_last() =~= rv.subrange(0, i as int));
            if self.players[i].role.has_night_action() {
                n_acting += 1;
            }
            if self.players[i].role.team() == Team::Mafia {
                n_mafia += 1;
            }
            i += 1;
        }
        assert(rv.subrange(0, rv.len() as int) =~= rv);
        if n_mafia > 0 {
            n >= 1 && n - 1 == n_acting
        } else {
            n == n_acting
        }
    }

    /// Records a night action in its slot, replacing the slot's former one,
    /// and reports it; a Goon's kill is stored as blocked and not reported.
    /// Returns whether every slot is now filled.
    fn accept_action(
        &mut self,
        actor: Actor<Pidx>,
        target: Target<Pidx>,
        source: u64,
        out: &mut Vec<Response>,
    ) -> (ready: bool)
        requires
            old(self).wf(),
            old(self)@.phase is Night,
            actor_pid(actor) < old(self)@.players.len(),
            target matches Target::Player(p) ==> p < old(self)@.players.len(),
        ensures
            final(self).wf(),
            final(self)@.players == old(self)@.players,
            final(self)@.phase == (PhaseView::Night {
                night_no: old(self)@.phase->Night_night_no,
                actions: without_slot(old(self)@.phase->Night_actions, actor).push(
                    (actor, stored_target(old(self)@.players, actor, target)),
                ),
            }),
            responses_view(final(out)@) == responses_view(old(out)@) + tagged(
                if stored_target(old(self)@.players, actor, target) is Blocked {
                    seq![]
                } else {
                    seq![EventView::Action { actor, target: stored_target(old(self)@.players, actor, target) }]
                },
                source,
            ),
            ready == (final(self)@.phase->Night_actions.len() == required_slots(old(self)@.players)),
    {
        let target = match actor {
            Actor::Mafia(p) => {
                if self.players[p].role == Role::Goon {
                    Target::Blocked
                } else {
                    target
                }
            },
            _ => target,
        };
        let ghost n = self@.players.len();
        let ghost acts0 = old(self)@.phase->Night_actions;
        proof {
            lemma_resubmit_keeps_one_each(acts0, actor, target);
            lemma_without_slot_valid(acts0, actor, n);
            let r = without_slot(acts0, actor);
            assert forall|j: int| 0 <= j < r.push((actor, target)).len() implies {
                &&& actor_pid(#[trigger] r.push((actor, target))[j].0) < n
                &&& (r.push((actor, target))[j].1 is Player ==> r.push((actor, target))[j].1->Player_0 < n)
            } by {
                if j < r.len() {
                    assert(r.push((actor, target))[j] == r[j]);
                    assert(actor_pid(r[j].0) < n);
                }
            }
        }
        assert(responses_view(out@) + tagged(seq![], source) =~= responses_view(out@));
        let len = match &mut self.phase {
            Phase::Night { actions, .. } => {
                take_slot(actions, actor);
                match target {
                    Target::Blocked => {},
                    _ => emit(out, source, Event::Action { actor, target }),
                }
                actions.push((actor, target));
                actions.len()
            },
            _ => return false,
        };
        self.all_slots_filled(len)
    }

    /// Resolves the night at dawn: strips, then saves, then investigations,
    /// then the Mafia's kill; unless that ends the game the next day begins.
    fn resolve_dawn(&mut self, source: u64, out: &mut Vec<Response>)
        requires
            old(self).wf(),
            old(self)@.phase is Night,
        ensures
            final(self).wf(),
            final(self)@ == dawn_outcome(
                old(self)@.players,
                old(self)@.phase->Night_night_no,
                old(self)@.phase->Night_actions,
            ).0,
            responses_view(final(out)@) == responses_view(old(out)@) + tagged(
                dawn_outcome(
                    old(self)@.players,
                    old(self)@.phase->Night_night_no,
                    old(self)@.phase->Night_actions,
                ).1,
                source,
            ),
    {
        let ghost g0 = self@;
        let ghost rv = g0.players;
        let ghost n = rv.len();
        let ghost acts0 = g0.phase->Night_actions;
        emit(out, source, Event::Dawn);
        let mut actions: Vec<NightAction> = Vec::new();
        let night_no = match &mut self.phase {
            Phase::Night { night_no, actions: a } => {
                std::mem::swap(a, &mut actions);
                *night_no
            },
            _ => return ,
        };
        assert(actions@ == acts0);
        assert(self.wf());
        assert(roster_view(self.players@) == rv);
        strip_all(&self.players, &mut actions, source, out);
        let ghost a1 = actions@;
        save_all(&self.players, &mut actions, source, out);
        let ghost a2 = actions@;
        proof {
            lemma_strip_stage_valid(rv, acts0, n as int, n);
            lemma_save_stage_valid(rv, a1, n as int, n);
            lemma_mafia_action_valid(a2, n);
        }
        investigate_all(&self.players, &actions, source, out);
        let ghost e1 = strip_stage(rv, acts0, n as int).1;
        let ghost e2 = save_stage(rv, a1, n as int).1;
        let ghost e3 = investigate_stage(rv, a2, n as int);
        let ghost pre = seq![EventView::Dawn] + e1 + e2 + e3;
        proof {
            lemma_append_twice(responses_view(old(out)@), seq![EventView::Dawn], e1, source);
            lemma_append_twice(responses_view(old(out)@), seq![EventView::Dawn] + e1, e2, source);
            lemma_append_twice(responses_view(old(out)@), seq![EventView::Dawn] + e1 + e2, e3, source);
        }
        let day_no = if night_no < usize::MAX {
            night_no + 1
        } else {
            night_no
        };
        let ghost day = PhaseView::Day { day_no, votes: seq![] };
        match first_mafia_action(&actions) {
            Some((Actor::Mafia(killer), Target::Player(victim))) => {
                emit(out, source, Event::Kill { killer, victim });
                let ghost kill = seq![EventView::Kill { killer, victim }];
                proof {
                    lemma_append_twice(responses_view(old(out)@), pre, kill, source);
                }
                let w = self.eliminate(victim, source, out);
                proof {
                    lemma_append_twice(
                        responses_view(old(out)@),
                        pre + kill,
                        eliminate_then(rv, victim, day).1,
                        source,
                    );
                }
                if w.is_some() {
                    return ;
                }
                self.phase = Phase::new_day(day_no);
                emit(out, source, Event::Day { day_no });
                proof {
                    let el = seq![EventView::Eliminate { player: victim }];
                    let d = seq![EventView::Day { day_no }];
                    lemma_append_twice(responses_view(old(out)@), pre + kill, el, source);
                    lemma_append_twice(responses_view(old(out)@), pre + kill + el, d, source);
                    assert(pre + kill + el + d =~= pre + kill + eliminate_then(rv, victim, day).1);
                }
            },
            _ => {
                self.phase = Phase::new_day(day_no);
                emit(out, source, Event::NoKill);
                emit(out, source, Event::Day { day_no });
                proof {
                    let nk = seq![EventView::NoKill];
                    let d = seq![EventView::Day { day_no }];
                    lemma_append_twice(responses_view(old(out)@), pre, nk, source);
                    lemma_append_twice(responses_view(old(out)@), pre + nk, d, source);
                    assert(pre + nk + d =~= pre + seq![EventView::NoKill, announce(day)]);
                }
            },
        }
    }

    /// Handles a night action sent by the caller.
    fn handle_action(&mut self, a: Actor<u64>, t: Target<u64>, source: u64, out: &mut Vec<Response>)
        requires
            old(self).wf(),
            old(self)@.phase is Night,
        ensures
            final(self).wf(),
            final(self)@ == action_step(old(self)@, a, t).0,
            responses_view(final(out)@) == responses_view(old(out)@) + tagged(
                action_step(old(self)@, a, t).1,
                source,
            ),
    {
        let (actor, target) = match self.validate_action(a, t) {
            Ok((actor, target)) => (actor, target),
            Err(_) => {
                emit(out, source, Event::InvalidCommand);
                return ;
            },
        };
        let ghost g0 = self@;
        let ghost st = stored_target(g0.players, actor, target);
        let ghost evs = if st is Blocked {
            seq![]
        } else {
            seq![EventView::Action { actor, target: st }]
        };
        if !self.accept_action(actor, target, source, out) {
            return ;
        }
        let ghost g1 = self@;
        self.resolve_dawn(source, out);
        proof {
            lemma_append_twice(
                responses_view(old(out)@),
                evs,
                dawn_outcome(g1.players, g1.phase->Night_night_no, g1.phase->Night_actions).1,
                source,
            );
        }
    }

    /// Handles a command during the night: only actions are taken.
    fn handle_night(&mut self, cmd: Command, source: u64, out: &mut Vec<Response>)
        requires
            old(self).wf(),
            old(self)@.phase is Night,
        ensures
            final(self).wf(),
            final(self)@ == step(old(self)@, cmd).0,
            responses_view(final(out)@) == responses_view(old(out)@) + tagged(
                step(old(self)@, cmd).1,
                source,
            ),
    {
        match cmd {
            Command::Action(a, t) => {
                let t = match t {
                    Some(t) => t,
                    None => Target::NoTarget,
                };
                self.handle_action(a, t, source, out)
            },
            _ => emit(out, source, Event::InvalidCommand),
        }
    }

    /// Processes one request to completion and returns what happened, each
    /// response tagged with the request's source. Commands that do not fit
    /// the phase, or name unknown or ineligible players, change nothing and
    /// are answered with a single `InvalidCommand`.
    pub fn handle(&mut self, req: Request) -> (out: Vec<Response>)
        requires
            old(self).wf(),
        ensures
            final(self).wf(),
            final(self)@ == step(old(self)@, req.cmd).0,
            responses_view(out@) == tagged(step(old(self)@, req.cmd).1, req.source),
    {
        let mut out: Vec<Response> = Vec::new();
        assert(responses_view(out@) =~= seq![]);
        match self.phase {
            Phase::Day { .. } => self.handle_day(req.cmd, req.source, &mut out),
            Phase::Night { .. } => self.handle_night(req.cmd, req.source, &mut out),
            _ => emit(&mut out, req.source, Event::InvalidCommand),
        }
        assert(responses_view(out@) =~= tagged(step(old(self)@, req.cmd).1, req.source));
        out
    }

    /// Whether the game is over.
    pub fn is_over(&self) -> (r: bool)
        ensures
            r == (self@.phase is End),
    {
        match self.phase {
            Phase::End(_) => true,
            _ => false,
        }
    }

    /// The live roster.
    pub fn players(&self) -> (r: &Vec<Player>)
        ensures
            roster_view(r@) == self@.players,
    {
        &self.players
    }

    /// The current phase.
    pub fn phase(&self) -> (r: &Phase)
        ensures
            r@ == self@.phase,
    {
        &self.phase
    }
}

/// The first phase of a game with `n` players.
pub open spec fn first_phase(n: nat) -> PhaseView {
    if n % 2 == 1 {
        PhaseView::Day { day_no: 1, votes: seq![] }
    } else {
        PhaseView::Night { night_no: 1, actions: seq![] }
    }
}

pub proof fn lemma_remove_keeps_unique(players: Seq<PlayerView>, p: int)
    requires
        unique_ids(players),
        0 <= p < players.len(),
    ensures
        unique_ids(players.remove(p)),
{
    let r = players.remove(p);
    assert forall|i: int, j: int| 0 <= i < j < r.len() implies #[trigger] r[i].raw_pid
        != #[trigger] r[j].raw_pid by {
        let i2 = if i < p { i } else { i + 1 };
        let j2 = if j < p { j } else { j + 1 };
        assert(r[i] == players[i2]);
        assert(r[j] == players[j2]);
    }
}

} // verus!
