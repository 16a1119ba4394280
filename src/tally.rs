//! The day's vote tally: one live ballot per voter, in the order cast.
use vstd::prelude::*;
use crate::phase::Vote;
use crate::protocol::{Ballot, Pidx};

verus! {

/// How many live ballots a voter has in the tally.
pub open spec fn count_voter(votes: Seq<Vote>, v: Pidx) -> nat
    decreases votes.len(),
{
    if votes.len() == 0 {
        0
    } else {
        count_voter(votes.drop_last(), v) + if votes.last().0 == v { 1nat } else { 0nat }
    }
}

/// The tally with the voter's ballot taken out, the others in their order.
pub open spec fn without_voter(votes: Seq<Vote>, v: Pidx) -> Seq<Vote>
    decreases votes.len(),
{
    if votes.len() == 0 {
        seq![]
    } else {
        let rest = without_voter(votes.drop_last(), v);
        if votes.last().0 == v {
            rest
        } else {
            rest.push(votes.last())
        }
    }
}

/// The voter's live ballot, if any.
pub open spec fn former_ballot(votes: Seq<Vote>, v: Pidx) -> Option<Ballot<Pidx>>
    decreases votes.len(),
{
    if votes.len() == 0 {
        None
    } else if votes.last().0 == v {
        Some(votes.last().1)
    } else {
        former_ballot(votes.drop_last(), v)
    }
}

/// The voters whose live ballot is `b`, in the order cast.
pub open spec fn electors_of(votes: Seq<Vote>, b: Ballot<Pidx>) -> Seq<Pidx>
    decreases votes.len(),
{
    if votes.len() == 0 {
        seq![]
    } else {
        let rest = electors_of(votes.drop_last(), b);
        if votes.last().1 == b {
            rest.push(votes.last().0)
        } else {
            rest
        }
    }
}

/// The number of matching ballots that elects `b` among `n` players: a strict
/// majority for a player, a simple majority to abstain.
pub open spec fn threshold(n: nat, b: Ballot<Pidx>) -> nat {
    match b {
        Ballot::Player(_) => n / 2 + 1,
        _ => (n + 1) / 2,
    }
}

/// No voter has more than one live ballot.
pub open spec fn one_ballot_each(votes: Seq<Vote>) -> bool {
    forall|v: Pidx| #[trigger] count_voter(votes, v) <= 1
}

pub proof fn lemma_count_voter_push(votes: Seq<Vote>, e: Vote, v: Pidx)
    ensures
        count_voter(votes.push(e), v) == count_voter(votes, v) + if e.0 == v { 1nat } else { 0nat },
{
    assert(votes.push(e).drop_last() =~= votes);
}

pub proof fn lemma_without_voter_count(votes: Seq<Vote>, v: Pidx, w: Pidx)
    ensures
        count_voter(without_voter(votes, v), w) == if w == v { 0 } else { count_voter(votes, w) },
    decreases votes.len(),
{
    if votes.len() > 0 {
        lemma_without_voter_count(votes.drop_last(), v, w);
        if votes.last().0 != v {
            lemma_count_voter_push(without_voter(votes.drop_last(), v), votes.last(), w);
        }
    }
}

/// Casting a ballot after taking out the voter's former one keeps one live
/// ballot per voter.
pub proof fn lemma_recast_keeps_one_each(votes: Seq<Vote>, v: Pidx, b: Ballot<Pidx>)
    requires
        one_ballot_each(votes),
    ensures
        one_ballot_each(without_voter(votes, v)),
        one_ballot_each(without_voter(votes, v).push((v, b))),
{
    assert forall|w: Pidx| #[trigger] count_voter(without_voter(votes, v), w) <= 1 by {
        lemma_without_voter_count(votes, v, w);
    }
    assert forall|w: Pidx| #[trigger] count_voter(without_voter(votes, v).push((v, b)), w) <= 1 by {
        lemma_without_voter_count(votes, v, w);
        lemma_count_voter_push(without_voter(votes, v), (v, b), w);
    }
}

/// Takes the voter's ballot out of the tally and returns it.
pub fn take_vote(votes: &mut Vec<Vote>, voter: Pidx) -> (former: Option<Ballot<Pidx>>)
    ensures
        final(votes)@ == without_voter(old(votes)@, voter),
        former == former_ballot(old(votes)@, voter),
{
    let mut kept: Vec<Vote> = Vec::new();
    let mut former: Option<Ballot<Pidx>> = None;
    let mut i: usize = 0;
    while i < votes.len()
        invariant
            0 <= i <= votes.len(),
            votes@ == old(votes)@,
            kept@ == without_voter(votes@.subrange(0, i as int), voter),
            former == former_ballot(votes@.subrange(0, i as int), voter),
        decreases votes.len() - i,
    {
        let e = votes[i];
        assert(votes@.subrange(0, i + 1).drop_last() =~= votes@.subrange(0, i as int));
        if e.0 == voter {
            former = Some(e.1);
        } else {
            kept.push(e);
        }
        i += 1;
    }
    assert(votes@.subrange(0, votes@.len() as int) =~= votes@);
    *votes = kept;
    former
}

/// The voters whose live ballot is `ballot`.
pub fn electors(votes: &Vec<Vote>, ballot: Ballot<Pidx>) -> (r: Vec<Pidx>)
    ensures
        r@ == electors_of(votes@, ballot),
{
    let mut r: Vec<Pidx> = Vec::new();
    let mut i: usize = 0;
    while i < votes.len()
        invariant
            0 <= i <= votes.len(),
            r@ == electors_of(votes@.subrange(0, i as int), ballot),
        decreases votes.len() - i,
    {
        let e = votes[i];
        assert(votes@.subrange(0, i + 1).drop_last() =~= votes@.subrange(0, i as int));
        if e.1 == ballot {
            r.push(e.0);
        }
        i += 1;
    }
    assert(votes@.subrange(0, votes@.len() as int) =~= votes@);
    r
}

/// The threshold for `ballot` among `n` players.
pub fn threshold_for(n: usize, ballot: Ballot<Pidx>) -> (t: usize)
    ensures
        t == threshold(n as nat, ballot),
{
    match ballot {
        Ballot::Player(_) => n / 2 + 1,
        _ => n / 2 + n % 2,
    }
}

} // verus!
