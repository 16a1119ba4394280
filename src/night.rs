//! Night actions: one live action per slot, and the dawn pipeline that
//! resolves them in a fixed order (strip, save, investigate).
use vstd::prelude::*;
use crate::event::{
    Event, EventView, Response, emit, lemma_append_twice, responses_view, tagged,
};
use crate::phase::NightAction;
use crate::player::{Player, PlayerView, roster_view};
use crate::protocol::{Actor, Pidx, Target, actor_pid, overlaps};
use crate::role::{Role, Team, acts_at_night, reads_as_mafia, team_of};

verus! {

/// How many live actions occupy the slot of actor `a`.
pub open spec fn count_slot(actions: Seq<NightAction>, a: Actor<Pidx>) -> nat
    decreases actions.len(),
{
    if actions.len() == 0 {
        0
    } else {
        count_slot(actions.drop_last(), a) + if overlaps(actions.last().0, a) {
            1nat
        } else {
            0nat
        }
    }
}

/// The actions with every one in the slot of `a` taken out.
pub open spec fn without_slot(actions: Seq<NightAction>, a: Actor<Pidx>) -> Seq<NightAction>
    decreases actions.len(),
{
    if actions.len() == 0 {
        seq![]
    } else {
        let rest = without_slot(actions.drop_last(), a);
        if overlaps(actions.last().0, a) {
            rest
        } else {
            rest.push(actions.last())
        }
    }
}

/// No slot holds more than one live action.
pub open spec fn one_action_each(actions: Seq<NightAction>) -> bool {
    forall|a: Actor<Pidx>| #[trigger] count_slot(actions, a) <= 1
}

/// Every actor and every targeted player is a position of a roster of `n`.
pub open spec fn actions_valid(actions: Seq<NightAction>, n: nat) -> bool {
    forall|i: int|
        0 <= i < actions.len() ==> {
            &&& actor_pid(#[trigger] actions[i].0) < n
            &&& (actions[i].1 is Player ==> actions[i].1->Player_0 < n)
        }
}

/// How many players of the roster act on their own at night.
pub open spec fn count_acting(players: Seq<PlayerView>) -> nat
    decreases players.len(),
{
    if players.len() == 0 {
        0
    } else {
        count_acting(players.drop_last()) + if acts_at_night(players.last().role) {
            1nat
        } else {
            0nat
        }
    }
}

/// How many players of the roster play for the Mafia.
pub open spec fn count_mafia(players: Seq<PlayerView>) -> nat
    decreases players.len(),
{
    if players.len() == 0 {
        0
    } else {
        count_mafia(players.drop_last()) + if team_of(players.last().role) == Team::Mafia {
            1nat
        } else {
            0nat
        }
    }
}

/// The slots that must be filled before dawn: one per player acting on their
/// own, and one for the whole Mafia while it has a member.
pub open spec fn required_slots(players: Seq<PlayerView>) -> nat {
    count_acting(players) + if count_mafia(players) > 0 {
        1nat
    } else {
        0nat
    }
}

/// The target of the first action that player `p` took with their own role.
pub open spec fn declared(actions: Seq<NightAction>, p: Pidx) -> Option<Target<Pidx>>
    decreases actions.len(),
{
    if actions.len() == 0 {
        None
    } else {
        let first = declared(actions.drop_last(), p);
        if first is Some {
            first
        } else if actions.last().0 == Actor::Player(p) {
            Some(actions.last().1)
        } else {
            None
        }
    }
}

/// Player `x` submitted some action, their own or the Mafia's.
pub open spec fn has_action_by(actions: Seq<NightAction>, x: Pidx) -> bool {
    exists|i: int| 0 <= i < actions.len() && actor_pid(#[trigger] actions[i].0) == x
}

/// Every action submitted by player `x` blocked.
pub open spec fn block_by(actions: Seq<NightAction>, x: Pidx) -> Seq<NightAction> {
    actions.map_values(
        |e: NightAction|
            if actor_pid(e.0) == x {
                (e.0, Target::Blocked)
            } else {
                e
            },
    )
}

/// The Mafia's action aims at player `x`.
pub open spec fn mafia_aims_at(actions: Seq<NightAction>, x: Pidx) -> bool {
    exists|i: int|
        0 <= i < actions.len() && (#[trigger] actions[i]).0 is Mafia && actions[i].1
            == Target::Player(x)
}

/// The Mafia's action against player `x` blocked.
pub open spec fn block_mafia_at(actions: Seq<NightAction>, x: Pidx) -> Seq<NightAction> {
    actions.map_values(
        |e: NightAction|
            if e.0 is Mafia && e.1 == Target::Player(x) {
                (e.0, Target::Blocked)
            } else {
                e
            },
    )
}

/// One stripper's effect: whoever they visited has all their actions blocked.
pub open spec fn strip_one(actions: Seq<NightAction>, stripper: Pidx) -> (
    Seq<NightAction>,
    Seq<EventView>,
) {
    match declared(actions, stripper) {
        Some(Target::Player(x)) => if has_action_by(actions, x) {
            (block_by(actions, x), seq![EventView::Strip { stripper, stripped: x }])
        } else {
            (actions, seq![])
        },
        _ => (actions, seq![]),
    }
}

/// One doctor's effect: a Mafia kill aimed at their patient is blocked.
pub open spec fn save_one(actions: Seq<NightAction>, doctor: Pidx) -> (
    Seq<NightAction>,
    Seq<EventView>,
) {
    match declared(actions, doctor) {
        Some(Target::Player(x)) => if mafia_aims_at(actions, x) {
            (block_mafia_at(actions, x), seq![EventView::Save { doctor, saved: x }])
        } else {
            (actions, seq![])
        },
        _ => (actions, seq![]),
    }
}

/// One cop's reports: for each of their actions aimed at a player, what that
/// player's role reads as.
pub open spec fn investigate_one(
    players: Seq<PlayerView>,
    actions: Seq<NightAction>,
    cop: Pidx,
) -> Seq<EventView>
    decreases actions.len(),
{
    if actions.len() == 0 {
        seq![]
    } else {
        let rest = investigate_one(players, actions.drop_last(), cop);
        let e = actions.last();
        match e.1 {
            Target::Player(x) => if e.0 == Actor::Player(cop) {
                rest.push(
                    EventView::Investigate { cop, suspect: x, mafia: reads_as_mafia(players[x as int].role) },
                )
            } else {
                rest
            },
            _ => rest,
        }
    }
}

/// The strip stage over the first `i` players of the roster, in roster order.
pub open spec fn strip_stage(players: Seq<PlayerView>, actions: Seq<NightAction>, i: int) -> (
    Seq<NightAction>,
    Seq<EventView>,
)
    decreases i,
{
    if i <= 0 {
        (actions, seq![])
    } else {
        let (a, e) = strip_stage(players, actions, i - 1);
        if players[i - 1].role == Role::Stripper {
            let (a2, e2) = strip_one(a, (i - 1) as Pidx);
            (a2, e + e2)
        } else {
            (a, e)
        }
    }
}

/// The save stage over the first `i` players of the roster, in roster order.
pub open spec fn save_stage(players: Seq<PlayerView>, actions: Seq<NightAction>, i: int) -> (
    Seq<NightAction>,
    Seq<EventView>,
)
    decreases i,
{
    if i <= 0 {
        (actions, seq![])
    } else {
        let (a, e) = save_stage(players, actions, i - 1);
        if players[i - 1].role == Role::Doctor {
            let (a2, e2) = save_one(a, (i - 1) as Pidx);
            (a2, e + e2)
        } else {
            (a, e)
        }
    }
}

/// The investigate stage over the first `i` players of the roster.
pub open spec fn investigate_stage(
    players: Seq<PlayerView>,
    actions: Seq<NightAction>,
    i: int,
) -> Seq<EventView>
    decreases i,
{
    if i <= 0 {
        seq![]
    } else {
        let e = investigate_stage(players, actions, i - 1);
        if players[i - 1].role == Role::Cop {
            e + investigate_one(players, actions, (i - 1) as Pidx)
        } else {
            e
        }
    }
}

/// The first Mafia action, if any.
pub open spec fn mafia_action(actions: Seq<NightAction>) -> Option<NightAction>
    decreases actions.len(),
{
    if actions.len() == 0 {
        None
    } else {
        let first = mafia_action(actions.drop_last());
        if first is Some {
            first
        } else if actions.last().0 is Mafia {
            Some(actions.last())
        } else {
            None
        }
    }
}

pub proof fn lemma_count_slot_push(actions: Seq<NightAction>, e: NightAction, a: Actor<Pidx>)
    ensures
        count_slot(actions.push(e), a) == count_slot(actions, a) + if overlaps(e.0, a) {
            1nat
        } else {
            0nat
        },
{
    assert(actions.push(e).drop_last() =~= actions);
}

pub proof fn lemma_without_slot_count(actions: Seq<NightAction>, a: Actor<Pidx>, b: Actor<Pidx>)
    ensures
        count_slot(without_slot(actions, a), b) == if overlaps(a, b) {
            0
        } else {
            count_slot(actions, b)
        },
    decreases actions.len(),
{
    if actions.len() > 0 {
        lemma_without_slot_count(actions.drop_last(), a, b);
        if !overlaps(actions.last().0, a) {
            lemma_count_slot_push(without_slot(actions.drop_last(), a), actions.last(), b);
        }
    }
}

pub proof fn lemma_without_slot_valid(actions: Seq<NightAction>, a: Actor<Pidx>, n: nat)
    requires
        actions_valid(actions, n),
    ensures
        actions_valid(without_slot(actions, a), n),
    decreases actions.len(),
{
    if actions.len() > 0 {
        assert(actions_valid(actions.drop_last(), n)) by {
            assert forall|i: int| 0 <= i < actions.drop_last().len() implies {
                &&& actor_pid(#[trigger] actions.drop_last()[i].0) < n
                &&& (actions.drop_last()[i].1 is Player ==> actions.drop_last()[i].1->Player_0 < n)
            } by {
                assert(actions.drop_last()[i] == actions[i]);
            }
        }
        lemma_without_slot_valid(actions.drop_last(), a, n);
        let r = without_slot(actions.drop_last(), a);
        let last = actions.last();
        assert(actor_pid(actions[actions.len() - 1].0) < n);
        if !overlaps(last.0, a) {
            assert forall|i: int| 0 <= i < r.push(last).len() implies {
                &&& actor_pid(#[trigger] r.push(last)[i].0) < n
                &&& (r.push(last)[i].1 is Player ==> r.push(last)[i].1->Player_0 < n)
            } by {
                if i < r.len() {
                    assert(r.push(last)[i] == r[i]);
                    assert(actor_pid(r[i].0) < n);
                } else {
                    assert(r.push(last)[i] == last);
                    assert(actor_pid(actions[actions.len() - 1].0) < n);
                }
            }
        }
    }
}

/// Submitting an action after taking out its slot's former one keeps one live
/// action per slot.
pub proof fn lemma_resubmit_keeps_one_each(
    actions: Seq<NightAction>,
    a: Actor<Pidx>,
    t: Target<Pidx>,
)
    requires
        one_action_each(actions),
    ensures
        one_action_each(without_slot(actions, a).push((a, t))),
{
    assert forall|b: Actor<Pidx>| #[trigger]
        count_slot(without_slot(actions, a).push((a, t)), b) <= 1 by {
        lemma_without_slot_count(actions, a, b);
        lemma_count_slot_push(without_slot(actions, a), (a, t), b);
    }
}

pub proof fn lemma_strip_stage_valid(
    players: Seq<PlayerView>,
    actions: Seq<NightAction>,
    i: int,
    n: nat,
)
    requires
        actions_valid(actions, n),
    ensures
        actions_valid(strip_stage(players, actions, i).0, n),
        strip_stage(players, actions, i).0.len() == actions.len(),
    decreases i,
{
    if i > 0 {
        lemma_strip_stage_valid(players, actions, i - 1, n);
        let a = strip_stage(players, actions, i - 1).0;
        if let Some(Target::Player(x)) = declared(a, (i - 1) as Pidx) {
            let b = block_by(a, x);
            assert forall|j: int| 0 <= j < b.len() implies {
                &&& actor_pid(#[trigger] b[j].0) < n
                &&& (b[j].1 is Player ==> b[j].1->Player_0 < n)
            } by {
                assert(actor_pid(a[j].0) < n);
            }
        }
    }
}

pub proof fn lemma_save_stage_valid(
    players: Seq<PlayerView>,
    actions: Seq<NightAction>,
    i: int,
    n: nat,
)
    requires
        actions_valid(actions, n),
    ensures
        actions_valid(save_stage(players, actions, i).0, n),
        save_stage(players, actions, i).0.len() == actions.len(),
    decreases i,
{
    if i > 0 {
        lemma_save_stage_valid(players, actions, i - 1, n);
        let a = save_stage(players, actions, i - 1).0;
        if let Some(Target::Player(x)) = declared(a, (i - 1) as Pidx) {
            let b = block_mafia_at(a, x);
            assert forall|j: int| 0 <= j < b.len() implies {
                &&& actor_pid(#[trigger] b[j].0) < n
                &&& (b[j].1 is Player ==> b[j].1->Player_0 < n)
            } by {
                assert(actor_pid(a[j].0) < n);
            }
        }
    }
}

pub proof fn lemma_mafia_action_valid(actions: Seq<NightAction>, n: nat)
    requires
        actions_valid(actions, n),
    ensures
        mafia_action(actions) matches Some(e) ==> actor_pid(e.0) < n && (e.1 is Player
            ==> e.1->Player_0 < n),
    decreases actions.len(),
{
    if actions.len() > 0 {
        let d = actions.drop_last();
        assert forall|j: int| 0 <= j < d.len() implies {
            &&& actor_pid(#[trigger] d[j].0) < n
            &&& (d[j].1 is Player ==> d[j].1->Player_0 < n)
        } by {
            assert(d[j] == actions[j]);
        }
        lemma_mafia_action_valid(d, n);
        assert(actor_pid(actions[actions.len() - 1].0) < n);
    }
}

pub proof fn lemma_block_by_drop_last(actions: Seq<NightAction>, x: Pidx)
    requires
        actions.len() > 0,
    ensures
        block_by(actions, x).drop_last() == block_by(actions.drop_last(), x),
        block_by(actions, x).last() == (if actor_pid(actions.last().0) == x {
            (actions.last().0, Target::Blocked)
        } else {
            actions.last()
        }),
{
    assert(block_by(actions, x).drop_last() =~= block_by(actions.drop_last(), x));
}

/// Blocking a player's actions leaves their own action, if declared,
/// declared as blocked.
pub proof fn lemma_declared_after_block(actions: Seq<NightAction>, p: Pidx)
    ensures
        declared(block_by(actions, p), p) == (if declared(actions, p) is Some {
            Some(Target::<Pidx>::Blocked)
        } else {
            None
        }),
        declared(actions, p) is Some ==> has_action_by(actions, p),
    decreases actions.len(),
{
    if actions.len() > 0 {
        let d = actions.drop_last();
        lemma_block_by_drop_last(actions, p);
        lemma_declared_after_block(d, p);
        if declared(d, p) is Some {
            let i = choose|i: int| 0 <= i < d.len() && actor_pid(#[trigger] d[i].0) == p;
            assert(actions[i] == d[i]);
        } else if declared(actions, p) is Some {
            assert(actor_pid(actions[actions.len() - 1].0) == p);
        }
    }
}

/// Blocking a player's actions blocks the Mafia's action too when that
/// player submitted it.
pub proof fn lemma_mafia_action_after_block(actions: Seq<NightAction>, x: Pidx)
    ensures
        mafia_action(block_by(actions, x)) == (match mafia_action(actions) {
            Some(e) => Some(
                if actor_pid(e.0) == x {
                    (e.0, Target::Blocked)
                } else {
                    e
                },
            ),
            None => None,
        }),
        mafia_action(actions) matches Some(e) ==> exists|i: int|
            0 <= i < actions.len() && #[trigger] actions[i] == e,
    decreases actions.len(),
{
    if actions.len() > 0 {
        let d = actions.drop_last();
        lemma_block_by_drop_last(actions, x);
        lemma_mafia_action_after_block(d, x);
        if mafia_action(d) is Some {
            let i = choose|i: int| 0 <= i < d.len() && #[trigger] d[i] == mafia_action(d)->Some_0;
            assert(actions[i] == d[i]);
        } else {
            assert(actions[actions.len() - 1] == actions.last());
        }
    }
}

/// Takes the action in the slot of `actor` out of the night's actions.
pub fn take_slot(actions: &mut Vec<NightAction>, actor: Actor<Pidx>)
    ensures
        final(actions)@ == without_slot(old(actions)@, actor),
{
    let mut kept: Vec<NightAction> = Vec::new();
    let mut i: usize = 0;
    while i < actions.len()
        invariant
            0 <= i <= actions.len(),
            actions@ == old(actions)@,
            kept@ == without_slot(actions@.subrange(0, i as int), actor),
        decreases actions.len() - i,
    {
        let e = actions[i];
        assert(actions@.subrange(0, i + 1).drop_last() =~= actions@.subrange(0, i as int));
        if !e.0.overlaps(&actor) {
            kept.push(e);
        }
        i += 1;
    }
    assert(actions@.subrange(0, actions@.len() as int) =~= actions@);
    *actions = kept;
}

/// The target of the first action that player `p` took with their own role.
pub fn declared_target(actions: &Vec<NightAction>, p: Pidx) -> (r: Option<Target<Pidx>>)
    ensures
        r == declared(actions@, p),
{
    let mut r: Option<Target<Pidx>> = None;
    let mut i: usize = 0;
    while i < actions.len()
        invariant
            0 <= i <= actions.len(),
            r == declared(actions@.subrange(0, i as int), p),
        decreases actions.len() - i,
    {
        let e = actions[i];
        assert(actions@.subrange(0, i + 1).drop_last() =~= actions@.subrange(0, i as int));
        if r.is_none() && e.0 == Actor::Player(p) {
            r = Some(e.1);
        }
        i += 1;
    }
    assert(actions@.subrange(0, actions@.len() as int) =~= actions@);
    r
}

/// Blocks every action submitted by player `x`; tells whether there was one.
pub fn block_actions_of(actions: &mut Vec<NightAction>, x: Pidx) -> (found: bool)
    ensures
        final(actions)@ == block_by(old(actions)@, x),
        found == has_action_by(old(actions)@, x),
{
    let mut found = false;
    let mut i: usize = 0;
    while i < actions.len()
        invariant
            0 <= i <= actions.len(),
            actions@.len() == old(actions)@.len(),
            forall|j: int| 0 <= j < i ==> actions@[j] == block_by(old(actions)@, x)[j],
            forall|j: int| i <= j < actions@.len() ==> actions@[j] == old(actions)@[j],
            found == exists|j: int| 0 <= j < i && actor_pid(#[trigger] old(actions)@[j].0) == x,
        decreases actions.len() - i,
    {
        let e = actions[i];
        if e.0.pid() == x {
            actions.set(i, (e.0, Target::Blocked));
            found = true;
        }
        i += 1;
    }
    assert(actions@ =~= block_by(old(actions)@, x));
    found
}

/// Blocks the Mafia's action against player `x`; tells whether there was one.
pub fn block_mafia_kill(actions: &mut Vec<NightAction>, x: Pidx) -> (found: bool)
    ensures
        final(actions)@ == block_mafia_at(old(actions)@, x),
        found == mafia_aims_at(old(actions)@, x),
{
    let mut found = false;
    let mut i: usize = 0;
    while i < actions.len()
        invariant
            0 <= i <= actions.len(),
            actions@.len() == old(actions)@.len(),
            forall|j: int| 0 <= j < i ==> actions@[j] == block_mafia_at(old(actions)@, x)[j],
            forall|j: int| i <= j < actions@.len() ==> actions@[j] == old(actions)@[j],
            found == exists|j: int|
                0 <= j < i && (#[trigger] old(actions)@[j]).0 is Mafia && old(actions)@[j].1
                    == Target::Player(x),
        decreases actions.len() - i,
    {
        let e = actions[i];
        if e.0.is_mafia() && e.1 == Target::Player(x) {
            actions.set(i, (e.0, Target::Blocked));
            found = true;
        }
        i += 1;
    }
    assert(actions@ =~= block_mafia_at(old(actions)@, x));
    found
}

/// Applies one stripper's visit.
pub fn strip(actions: &mut Vec<NightAction>, stripper: Pidx, source: u64, out: &mut Vec<Response>)
    ensures
        final(actions)@ == strip_one(old(actions)@, stripper).0,
        responses_view(final(out)@) == responses_view(old(out)@) + tagged(
            strip_one(old(actions)@, stripper).1,
            source,
        ),
{
    assert(responses_view(out@) + tagged(seq![], source) =~= responses_view(out@));
    match declared_target(actions, stripper) {
        Some(Target::Player(x)) => {
            if block_actions_of(actions, x) {
                emit(out, source, Event::Strip { stripper, stripped: x });
            } else {
                assert(actions@ =~= old(actions)@);
            }
        },
        _ => {},
    }
}

/// Applies one doctor's protection.
pub fn save(actions: &mut Vec<NightAction>, doctor: Pidx, source: u64, out: &mut Vec<Response>)
    ensures
        final(actions)@ == save_one(old(actions)@, doctor).0,
        responses_view(final(out)@) == responses_view(old(out)@) + tagged(
            save_one(old(actions)@, doctor).1,
            source,
        ),
{
    assert(responses_view(out@) + tagged(seq![], source) =~= responses_view(out@));
    match declared_target(actions, doctor) {
        Some(Target::Player(x)) => {
            if block_mafia_kill(actions, x) {
                emit(out, source, Event::Save { doctor, saved: x });
            } else {
                assert(actions@ =~= old(actions)@);
            }
        },
        _ => {},
    }
}

/// Reports what one cop learned.
pub fn investigate(
    players: &Vec<Player>,
    actions: &Vec<NightAction>,
    cop: Pidx,
    source: u64,
    out: &mut Vec<Response>,
)
    requires
        actions_valid(actions@, players@.len()),
    ensures
        responses_view(final(out)@) == responses_view(old(out)@) + tagged(
            investigate_one(roster_view(players@), actions@, cop),
            source,
        ),
{
    let ghost rv = roster_view(players@);
    let mut j: usize = 0;
    assert(responses_view(out@) + tagged(seq![], source) =~= responses_view(out@));
    while j < actions.len()
        invariant
            0 <= j <= actions.len(),
            rv == roster_view(players@),
            actions_valid(actions@, players@.len()),
            responses_view(out@) == responses_view(old(out)@) + tagged(
                investigate_one(rv, actions@.subrange(0, j as int), cop),
                source,
            ),
        decreases actions.len() - j,
    {
        let e = actions[j];
        let ghost before = investigate_one(rv, actions@.subrange(0, j as int), cop);
        assert(actions@.subrange(0, j + 1).drop_last() =~= actions@.subrange(0, j as int));
        assert(actions@.subrange(0, j + 1).last() == e);
        assert(actor_pid(actions@[j as int].0) < players@.len());
        match e.1 {
            Target::Player(x) => {
                if e.0 == Actor::Player(cop) {
                    let mafia = players[x].role.investigated_as_mafia();
                    emit(out, source, Event::Investigate { cop, suspect: x, mafia });
                    proof {
                        lemma_append_twice(responses_view(old(out)@), before, seq![EventView::Investigate { cop, suspect: x, mafia }], source);
                    }
                    proof {
                        assert(before.push(EventView::Investigate { cop, suspect: x, mafia }) =~= before + seq![EventView::Investigate { cop, suspect: x, mafia }]);
                    }
                }
            },
            _ => {},
        }
        j += 1;
    }
    assert(actions@.subrange(0, actions@.len() as int) =~= actions@);
}

/// Runs the strip stage: each stripper of the roster, in roster order.
pub fn strip_all(
    players: &Vec<Player>,
    actions: &mut Vec<NightAction>,
    source: u64,
    out: &mut Vec<Response>,
)
    ensures
        final(actions)@ == strip_stage(roster_view(players@), old(actions)@, players@.len() as int).0,
        responses_view(final(out)@) == responses_view(old(out)@) + tagged(
            strip_stage(roster_view(players@), old(actions)@, players@.len() as int).1,
            source,
        ),
{
    let ghost rv = roster_view(players@);
    let mut i: usize = 0;
    assert(responses_view(out@) + tagged(seq![], source) =~= responses_view(out@));
    while i < players.len()
        invariant
            0 <= i <= players.len(),
            rv == roster_view(players@),
            actions@ == strip_stage(rv, old(actions)@, i as int).0,
            responses_view(out@) == responses_view(old(out)@) + tagged(
                strip_stage(rv, old(actions)@, i as int).1,
                source,
            ),
        decreases players.len() - i,
    {
        if players[i].role == Role::Stripper {
            let ghost before = strip_stage(rv, old(actions)@, i as int);
            strip(actions, i, source, out);
            proof {
                lemma_append_twice(responses_view(old(out)@), before.1, strip_one(before.0, i).1, source);
            }
        }
        i += 1;
    }
}

/// Runs the save stage: each doctor of the roster, in roster order.
pub fn save_all(
    players: &Vec<Player>,
    actions: &mut Vec<NightAction>,
    source: u64,
    out: &mut Vec<Response>,
)
    ensures
        final(actions)@ == save_stage(roster_view(players@), old(actions)@, players@.len() as int).0,
        responses_view(final(out)@) == responses_view(old(out)@) + tagged(
            save_stage(roster_view(players@), old(actions)@, players@.len() as int).1,
            source,
        ),
{
    let ghost rv = roster_view(players@);
    let mut i: usize = 0;
    assert(responses_view(out@) + tagged(seq![], source) =~= responses_view(out@));
    while i < players.len()
        invariant
            0 <= i <= players.len(),
            rv == roster_view(players@),
            actions@ == save_stage(rv, old(actions)@, i as int).0,
            responses_view(out@) == responses_view(old(out)@) + tagged(
                save_stage(rv, old(actions)@, i as int).1,
                source,
            ),
        decreases players.len() - i,
    {
        if players[i].role == Role::Doctor {
            let ghost before = save_stage(rv, old(actions)@, i as int);
            save(actions, i, source, out);
            proof {
                lemma_append_twice(responses_view(old(out)@), before.1, save_one(before.0, i).1, source);
            }
        }
        i += 1;
    }
}

/// Runs the investigate stage: each cop of the roster, in roster order.
pub fn investigate_all(
    players: &Vec<Player>,
    actions: &Vec<NightAction>,
    source: u64,
    out: &mut Vec<Response>,
)
    requires
        actions_valid(actions@, players@.len()),
    ensures
        responses_view(final(out)@) == responses_view(old(out)@) + tagged(
            investigate_stage(roster_view(players@), actions@, players@.len() as int),
            source,
        ),
{
    let ghost rv = roster_view(players@);
    let mut i: usize = 0;
    assert(responses_view(out@) + tagged(seq![], source) =~= responses_view(out@));
    while i < players.len()
        invariant
            0 <= i <= players.len(),
            rv == roster_view(players@),
            actions_valid(actions@, players@.len()),
            responses_view(out@) == responses_view(old(out)@) + tagged(
                investigate_stage(rv, actions@, i as int),
                source,
            ),
        decreases players.len() - i,
    {
        if players[i].role == Role::Cop {
            let ghost before = investigate_stage(rv, actions@, i as int);
            investigate(players, actions, i, source, out);
            proof {
                lemma_append_twice(responses_view(old(out)@), before, investigate_one(rv, actions@, i), source);
            }
        }
        i += 1;
    }
}

/// The first Mafia action, if any.
pub fn first_mafia_action(actions: &Vec<NightAction>) -> (r: Option<NightAction>)
    ensures
        r == mafia_action(actions@),
{
    let mut r: Option<NightAction> = None;
    let mut i: usize = 0;
    while i < actions.len()
        invariant
            0 <= i <= actions.len(),
            r == mafia_action(actions@.subrange(0, i as int)),
        decreases actions.len() - i,
    {
        let e = actions[i];
        assert(actions@.subrange(0, i + 1).drop_last() =~= actions@.subrange(0, i as int));
        if r.is_none() && e.0.is_mafia() {
            r = Some(e);
        }
        i += 1;
    }
    assert(actions@.subrange(0, actions@.len() as int) =~= actions@);
    r
}

} // verus!
