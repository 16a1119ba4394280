use mafia_rust::action::{Action, ActionKind, Choice};
use mafia_rust::event::{Election, Event, Response};
use mafia_rust::game::Game;
use mafia_rust::phase::Phase;
use mafia_rust::player::Player;
use mafia_rust::protocol::{Actor, Ballot, Command, Request, Target, Winner};
use mafia_rust::role::{Role, Team};

fn player(raw: u64, role: Role) -> Player {
    Player::new(raw, format!("p{}", raw), role)
}

fn started(roles: &[Role]) -> Game {
    let players = roles
        .iter()
        .enumerate()
        .map(|(i, r)| player(i as u64 + 1, *r))
        .collect();
    let mut g = Game::new(players);
    g.start().expect("a new game starts");
    g
}

fn events(g: &mut Game, cmd: Command) -> Vec<Event> {
    g.handle(Request { cmd, source: 7 })
        .into_iter()
        .map(|r| {
            assert_eq!(r.source, 7);
            r.event
        })
        .collect()
}

fn vote(voter: u64, b: Option<Ballot<u64>>) -> Command {
    Command::Vote(voter, b)
}

fn act(a: Actor<u64>, t: Option<Target<u64>>) -> Command {
    Command::Action(a, t)
}

fn day_votes(g: &Game) -> Vec<(usize, Ballot<usize>)> {
    match g.phase() {
        Phase::Day { votes, .. } => votes.clone(),
        p => panic!("not day: {:?}", p),
    }
}

#[test]
fn three_players_vote_out_the_mafia() {
    let mut g = started(&[Role::Town, Role::Town, Role::Mafia]);
    assert_eq!(g.phase(), &Phase::Day { day_no: 1, votes: vec![] });
    let e = events(&mut g, vote(1, Some(Ballot::Player(3))));
    assert_eq!(
        e,
        vec![Event::Vote {
            voter: 0,
            ballot: Ballot::Player(2),
            former: None,
            count: 1,
            threshold: 2
        }]
    );
    let e = events(&mut g, vote(2, Some(Ballot::Player(3))));
    assert_eq!(
        e,
        vec![
            Event::Vote { voter: 1, ballot: Ballot::Player(2), former: None, count: 2, threshold: 2 },
            Event::Election {
                election: Election { electors: vec![0, 1], ballot: Ballot::Player(2) }
            },
            Event::Eliminate { player: 2 },
            Event::Win { winner: Winner::Team(Team::Town) },
            Event::End,
        ]
    );
    assert_eq!(g.phase(), &Phase::End(Winner::Team(Team::Town)));
    assert!(g.is_over());
    assert_eq!(g.players().len(), 2);
}

#[test]
fn unknown_voter_is_refused_without_tally_change() {
    let mut g = started(&[Role::Town, Role::Town, Role::Mafia]);
    events(&mut g, vote(1, Some(Ballot::Player(3))));
    let before = day_votes(&g);
    let e = events(&mut g, vote(99, Some(Ballot::Player(3))));
    assert_eq!(e, vec![Event::InvalidCommand]);
    assert_eq!(day_votes(&g), before);
    let e = events(&mut g, vote(2, Some(Ballot::Player(99))));
    assert_eq!(e, vec![Event::InvalidCommand]);
    assert_eq!(day_votes(&g), before);
}

#[test]
fn two_abstentions_of_three_end_the_day() {
    let mut g = started(&[Role::Town, Role::Town, Role::Mafia]);
    let e = events(&mut g, vote(1, Some(Ballot::Abstain)));
    assert_eq!(
        e,
        vec![Event::Vote { voter: 0, ballot: Ballot::Abstain, former: None, count: 1, threshold: 2 }]
    );
    let e = events(&mut g, vote(3, Some(Ballot::Abstain)));
    assert_eq!(
        e,
        vec![
            Event::Vote { voter: 2, ballot: Ballot::Abstain, former: None, count: 2, threshold: 2 },
            Event::Election { election: Election { electors: vec![0, 2], ballot: Ballot::Abstain } },
            Event::Night { night_no: 2 },
        ]
    );
    assert_eq!(g.phase(), &Phase::Night { night_no: 2, actions: vec![] });
    assert_eq!(g.players().len(), 3);
}

#[test]
fn thresholds_for_four_players() {
    let mut g = started(&[Role::Town, Role::Town, Role::Town, Role::Mafia, Role::Town]);
    // five players: a player needs 3, abstaining needs 3
    let e = events(&mut g, vote(1, Some(Ballot::Abstain)));
    assert_eq!(
        e,
        vec![Event::Vote { voter: 0, ballot: Ballot::Abstain, former: None, count: 1, threshold: 3 }]
    );
    let e = events(&mut g, vote(2, Some(Ballot::Player(4))));
    assert_eq!(
        e,
        vec![Event::Vote { voter: 1, ballot: Ballot::Player(3), former: None, count: 1, threshold: 3 }]
    );
}

#[test]
fn retract_reports_former_ballot_and_never_elects() {
    let mut g = started(&[Role::Town, Role::Town, Role::Mafia]);
    events(&mut g, vote(1, Some(Ballot::Player(3))));
    let e = events(&mut g, vote(1, None));
    assert_eq!(e, vec![Event::RetractVote { voter: 0, former: Some(Ballot::Player(2)) }]);
    assert_eq!(day_votes(&g), vec![]);
    let e = events(&mut g, vote(2, Some(Ballot::Retract)));
    assert_eq!(e, vec![Event::RetractVote { voter: 1, former: None }]);
    assert_eq!(day_votes(&g), vec![]);
}

#[test]
fn changing_a_vote_replaces_it() {
    let mut g = started(&[Role::Town, Role::Town, Role::Mafia]);
    events(&mut g, vote(1, Some(Ballot::Player(3))));
    let e = events(&mut g, vote(1, Some(Ballot::Player(2))));
    assert_eq!(
        e,
        vec![Event::Vote {
            voter: 0,
            ballot: Ballot::Player(1),
            former: Some(Ballot::Player(2)),
            count: 1,
            threshold: 2
        }]
    );
    assert_eq!(day_votes(&g), vec![(0, Ballot::Player(1))]);
}

#[test]
fn mafia_wins_at_parity() {
    let mut g = started(&[Role::Town, Role::Mafia, Role::Godfather]);
    events(&mut g, vote(2, Some(Ballot::Player(1))));
    let e = events(&mut g, vote(3, Some(Ballot::Player(1))));
    assert_eq!(
        &e[2..],
        &[
            Event::Eliminate { player: 0 },
            Event::Win { winner: Winner::Team(Team::Mafia) },
            Event::End
        ]
    );
    assert!(g.is_over());
    assert_eq!(events(&mut g, vote(2, Some(Ballot::Abstain))), vec![Event::InvalidCommand]);
}

#[test]
fn elimination_without_winner_moves_to_night() {
    let mut g = started(&[Role::Town, Role::Town, Role::Town, Role::Mafia, Role::Mafia]);
    events(&mut g, vote(1, Some(Ballot::Player(2))));
    events(&mut g, vote(3, Some(Ballot::Player(2))));
    let e = events(&mut g, vote(4, Some(Ballot::Player(2))));
    assert_eq!(&e[2..], &[Event::Eliminate { player: 1 }, Event::Night { night_no: 2 }]);
    assert_eq!(g.phase(), &Phase::Night { night_no: 2, actions: vec![] });
    assert_eq!(g.players().len(), 4);
}

// Six players start at night: cop 1, doctor 2, town 3 and 4, mafia 5 and 6.
fn night_game() -> Game {
    started(&[Role::Cop, Role::Doctor, Role::Town, Role::Town, Role::Mafia, Role::Mafia])
}

#[test]
fn even_roster_starts_at_night() {
    let g = night_game();
    assert_eq!(g.phase(), &Phase::Night { night_no: 1, actions: vec![] });
}

#[test]
fn night_waits_for_every_slot_and_mafia_shares_one() {
    let mut g = night_game();
    let e = events(&mut g, act(Actor::Mafia(5), Some(Target::Player(3))));
    assert_eq!(e, vec![Event::Action { actor: Actor::Mafia(4), target: Target::Player(2) }]);
    // the other member replaces the faction's action
    let e = events(&mut g, act(Actor::Mafia(6), Some(Target::Player(4))));
    assert_eq!(e, vec![Event::Action { actor: Actor::Mafia(5), target: Target::Player(3) }]);
    let e = events(&mut g, act(Actor::Player(1), Some(Target::Player(5))));
    assert_eq!(e.len(), 1);
    match g.phase() {
        Phase::Night { actions, .. } => assert_eq!(actions.len(), 2),
        p => panic!("not night: {:?}", p),
    }
    let e = events(&mut g, act(Actor::Player(2), Some(Target::Player(4))));
    assert_eq!(
        e,
        vec![
            Event::Action { actor: Actor::Player(1), target: Target::Player(3) },
            Event::Dawn,
            Event::Save { doctor: 1, saved: 3 },
            Event::Investigate { cop: 0, suspect: 4, mafia: true },
            Event::NoKill,
            Event::Day { day_no: 2 },
        ]
    );
    assert_eq!(g.phase(), &Phase::Day { day_no: 2, votes: vec![] });
}

#[test]
fn night_kill_eliminates_victim() {
    let mut g = night_game();
    events(&mut g, act(Actor::Mafia(5), Some(Target::Player(3))));
    events(&mut g, act(Actor::Player(1), None));
    let e = events(&mut g, act(Actor::Player(2), Some(Target::Player(4))));
    assert_eq!(
        e,
        vec![
            Event::Action { actor: Actor::Player(1), target: Target::Player(3) },
            Event::Dawn,
            Event::Kill { killer: 4, victim: 2 },
            Event::Eliminate { player: 2 },
            Event::Day { day_no: 2 },
        ]
    );
    assert_eq!(g.players().len(), 5);
}

// Six players: doctor 1, stripper 2, town 3, 4 and 5, mafia 6.
fn stripper_game() -> Game {
    started(&[Role::Doctor, Role::Stripper, Role::Town, Role::Town, Role::Town, Role::Mafia])
}

#[test]
fn stripper_on_doctor_cancels_the_save() {
    let mut g = stripper_game();
    events(&mut g, act(Actor::Mafia(6), Some(Target::Player(3))));
    events(&mut g, act(Actor::Player(1), Some(Target::Player(3))));
    let e = events(&mut g, act(Actor::Player(2), Some(Target::Player(1))));
    assert_eq!(
        e,
        vec![
            Event::Action { actor: Actor::Player(1), target: Target::Player(0) },
            Event::Dawn,
            Event::Strip { stripper: 1, stripped: 0 },
            Event::Kill { killer: 5, victim: 2 },
            Event::Eliminate { player: 2 },
            Event::Day { day_no: 2 },
        ]
    );
}

#[test]
fn stripper_on_killer_cancels_the_kill() {
    let mut g = stripper_game();
    events(&mut g, act(Actor::Mafia(6), Some(Target::Player(3))));
    events(&mut g, act(Actor::Player(1), Some(Target::Player(4))));
    let e = events(&mut g, act(Actor::Player(2), Some(Target::Player(6))));
    assert_eq!(
        e,
        vec![
            Event::Action { actor: Actor::Player(1), target: Target::Player(5) },
            Event::Dawn,
            Event::Strip { stripper: 1, stripped: 5 },
            Event::NoKill,
            Event::Day { day_no: 2 },
        ]
    );
    assert_eq!(g.players().len(), 6);
}

#[test]
fn goon_kill_is_blocked_and_not_reported() {
    let mut g = started(&[Role::Cop, Role::Town, Role::Town, Role::Goon]);
    let e = events(&mut g, act(Actor::Mafia(4), Some(Target::Player(2))));
    assert_eq!(e, vec![]);
    let e = events(&mut g, act(Actor::Player(1), Some(Target::Player(4))));
    assert_eq!(
        e,
        vec![
            Event::Action { actor: Actor::Player(0), target: Target::Player(3) },
            Event::Dawn,
            Event::Investigate { cop: 0, suspect: 3, mafia: true },
            Event::NoKill,
            Event::Day { day_no: 2 },
        ]
    );
}

#[test]
fn godfather_reads_innocent_and_miller_guilty() {
    let mut g = started(&[Role::Cop, Role::Miller, Role::Godfather, Role::Town]);
    events(&mut g, act(Actor::Mafia(3), None));
    let e = events(&mut g, act(Actor::Player(1), Some(Target::Player(3))));
    assert!(e.contains(&Event::Investigate { cop: 0, suspect: 2, mafia: false }));
    assert!(Role::Miller.investigated_as_mafia());
    assert!(!Role::Godfather.investigated_as_mafia());
    assert!(Role::Goon.investigated_as_mafia());
    assert!(!Role::Doctor.investigated_as_mafia());
}

#[test]
fn invalid_night_commands_are_refused() {
    let mut g = night_game();
    // a town player has no night action
    assert_eq!(events(&mut g, act(Actor::Player(3), None)), vec![Event::InvalidCommand]);
    // only the Mafia kills
    assert_eq!(
        events(&mut g, act(Actor::Mafia(1), Some(Target::Player(3)))),
        vec![Event::InvalidCommand]
    );
    // the caller cannot block
    assert_eq!(
        events(&mut g, act(Actor::Player(1), Some(Target::Blocked))),
        vec![Event::InvalidCommand]
    );
    // unknown target
    assert_eq!(
        events(&mut g, act(Actor::Player(1), Some(Target::Player(42)))),
        vec![Event::InvalidCommand]
    );
    // votes are not taken at night
    assert_eq!(events(&mut g, vote(1, Some(Ballot::Abstain))), vec![Event::InvalidCommand]);
    assert_eq!(g.phase(), &Phase::Night { night_no: 1, actions: vec![] });
}

#[test]
fn actions_are_refused_by_day() {
    let mut g = started(&[Role::Cop, Role::Town, Role::Mafia]);
    assert_eq!(
        events(&mut g, act(Actor::Player(1), Some(Target::Player(3)))),
        vec![Event::InvalidCommand]
    );
}

#[test]
fn new_skips_duplicate_ids_and_start_once() {
    let mut g = Game::new(vec![player(1, Role::Town), player(1, Role::Mafia), player(2, Role::Mafia)]);
    assert_eq!(g.players().len(), 2);
    assert_eq!(g.players()[1].role, Role::Mafia);
    assert_eq!(g.check_player(&2), Ok(1));
    assert_eq!(g.check_player(&3), Err("Player not found".to_string()));
    assert_eq!(g.add_player(player(1, Role::Cop)), Err("Player already exists".to_string()));
    assert_eq!(g.add_player(player(3, Role::Cop)), Ok(()));
    let e = g.start().expect("starts");
    assert_eq!(
        e,
        Event::Start {
            players: vec![player(1, Role::Town), player(2, Role::Mafia), player(3, Role::Cop)],
            phase: Phase::Day { day_no: 1, votes: vec![] },
        }
    );
    assert_eq!(g.start(), Err(()));
    assert_eq!(
        g.add_player(player(4, Role::Cop)),
        Err("Can't add player during game".to_string())
    );
    assert_eq!(
        g.handle(Request { cmd: vote(1, Some(Ballot::Abstain)), source: 3 }),
        vec![Response {
            event: Event::Vote { voter: 0, ballot: Ballot::Abstain, former: None, count: 1, threshold: 2 },
            source: 3
        }]
    );
}

#[test]
fn commands_before_start_are_refused() {
    let mut g = Game::new(vec![player(1, Role::Town)]);
    assert_eq!(events(&mut g, vote(1, Some(Ballot::Abstain))), vec![Event::InvalidCommand]);
}

#[test]
fn phase_constructors_and_clear() {
    let mut p = Phase::new_day(3);
    if let Phase::Day { votes, .. } = &mut p {
        votes.push((0, Ballot::Abstain));
    }
    p.clear();
    assert_eq!(p, Phase::Day { day_no: 3, votes: vec![] });
    let mut n = Phase::new_night(4);
    if let Phase::Night { actions, .. } = &mut n {
        actions.push((Actor::Player(0), Target::NoTarget));
    }
    n.clear();
    assert_eq!(n, Phase::Night { night_no: 4, actions: vec![] });
    let mut e = Phase::End(Winner::Player(1));
    e.clear();
    assert_eq!(e, Phase::End(Winner::Player(1)));
}

#[test]
fn action_kinds() {
    let v: Action<u64> = Action::Vote { voter: 1, ballot: None };
    assert_eq!(v.kind(), ActionKind::Vote);
    assert_eq!(Action::Reveal { celeb: 1u64 }.kind(), ActionKind::Reveal);
    assert_eq!(Action::Target { actor: 1u64, target: Choice::Player(2) }.kind(), ActionKind::Target);
    assert_eq!(Action::Mark { killer: 1u64, mark: Choice::Nobody }.kind(), ActionKind::Mark);
}

#[test]
fn role_teams() {
    assert_eq!(Role::Stripper.team(), Team::Mafia);
    assert_eq!(Role::Miller.team(), Team::Town);
    assert_eq!(Role::Executioner(3).team(), Team::Rogue);
    assert!(Role::Cop.has_night_action());
    assert!(!Role::Mafia.has_night_action());
}
