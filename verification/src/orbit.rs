//! The decisions of the escape-time iteration at one pixel.
//!
//! The arithmetic on the orbit is done by the caller. Before the first round
//! it reports whether the point lies in the main cardioid or the period-2
//! bulb; in each round it reports whether the current iterate has left the
//! bailout radius and whether the next iterate equals the current one. From
//! these reports the kernel decides when the iteration stops and which
//! iteration count the pixel gets.

use vstd::prelude::*;

verus! {

/// What the caller observed in one round of the iteration.
#[derive(Clone, Copy, Debug, PartialEq, Eq)]
pub struct Round {
    /// The current iterate lies outside the bailout radius.
    pub bailed_out: bool,
    /// The next iterate equals the current one: the orbit has reached a fixed
    /// point and will never escape.
    pub repeated: bool,
}

/// The state of the iteration at one pixel.
#[derive(Clone, Copy, Debug, PartialEq, Eq)]
pub enum Orbit {
    /// Still iterating, with this many iterations done.
    Running { iteration: u32 },
    /// Stopped, with this iteration count for the pixel.
    Settled { iteration: u32 },
}

/// The state before the first round.
pub open spec fn begin_spec(inside: bool, budget: u32) -> Orbit {
    if inside {
        Orbit::Settled { iteration: budget }
    } else {
        Orbit::Running { iteration: 0 }
    }
}

/// The state after one more round.
pub open spec fn advance_spec(orbit: Orbit, budget: u32, round: Round) -> Orbit {
    match orbit {
        Orbit::Settled { .. } => orbit,
        Orbit::Running { iteration } => if iteration >= budget {
            Orbit::Settled { iteration: budget }
        } else if round.bailed_out {
            Orbit::Settled { iteration }
        } else if round.repeated {
            Orbit::Settled { iteration: budget }
        } else {
            Orbit::Running { iteration: (iteration + 1) as u32 }
        },
    }
}

/// The state after a sequence of rounds.
pub open spec fn run(inside: bool, budget: u32, rounds: Seq<Round>) -> Orbit
    decreases rounds.len(),
{
    if rounds.len() == 0 {
        begin_spec(inside, budget)
    } else {
        advance_spec(run(inside, budget, rounds.drop_last()), budget, rounds.last())
    }
}

/// A point inside the cardioid or the bulb gets the whole budget as its
/// iteration count, whatever the rounds report.
pub proof fn lemma_inside_never_escapes(budget: u32, rounds: Seq<Round>)
    ensures
        run(true, budget, rounds) == (Orbit::Settled { iteration: budget }),
    decreases rounds.len(),
{
    if rounds.len() > 0 {
        lemma_inside_never_escapes(budget, rounds.drop_last());
    }
}

/// The iteration count never exceeds the budget; while the iteration runs, it
/// is the number of rounds done, and none of them bailed out or repeated.
pub proof fn lemma_within_budget(inside: bool, budget: u32, rounds: Seq<Round>)
    ensures
        match run(inside, budget, rounds) {
            Orbit::Settled { iteration } => iteration <= budget,
            Orbit::Running { iteration } => {
                &&& !inside
                &&& iteration == rounds.len()
                &&& iteration <= budget
                &&& forall|r: int|
                    0 <= r < rounds.len() ==> {
                        &&& !(#[trigger] rounds[r]).bailed_out
                        &&& !rounds[r].repeated
                    }
            },
        },
    decreases rounds.len(),
{
    if rounds.len() > 0 {
        let earlier = rounds.drop_last();
        lemma_within_budget(inside, budget, earlier);
        assert forall|r: int| 0 <= r < rounds.len() - 1 implies rounds[r] == earlier[r] by {}
    }
}

/// A pixel whose iteration count lies below the budget escaped: the round of
/// that number saw the iterate outside the bailout radius, and no earlier
/// round bailed out or repeated.
pub proof fn lemma_below_budget_escaped(inside: bool, budget: u32, rounds: Seq<Round>)
    requires
        run(inside, budget, rounds) is Settled,
        run(inside, budget, rounds)->Settled_iteration < budget,
    ensures
        !inside,
        run(inside, budget, rounds)->Settled_iteration < rounds.len(),
        rounds[run(inside, budget, rounds)->Settled_iteration as int].bailed_out,
        forall|r: int|
            0 <= r < run(inside, budget, rounds)->Settled_iteration ==> {
                &&& !(#[trigger] rounds[r]).bailed_out
                &&& !rounds[r].repeated
            },
    decreases rounds.len(),
{
    if rounds.len() > 0 {
        let earlier = rounds.drop_last();
        lemma_within_budget(inside, budget, earlier);
        assert forall|r: int| 0 <= r < rounds.len() - 1 implies rounds[r] == earlier[r] by {}
        if run(inside, budget, earlier) is Settled {
            lemma_below_budget_escaped(inside, budget, earlier);
        }
    }
}

/// The iteration has stopped once there were more rounds than the budget.
pub proof fn lemma_settles(inside: bool, budget: u32, rounds: Seq<Round>)
    requires
        rounds.len() > budget,
    ensures
        run(inside, budget, rounds) is Settled,
{
    lemma_within_budget(inside, budget, rounds);
}

impl Orbit {
    /// The state before the first round: settled at the budget where the
    /// point lies inside the cardioid or the bulb, running otherwise.
    pub fn begin(inside: bool, budget: u32) -> (orbit: Orbit)
        ensures
            orbit == begin_spec(inside, budget),
    {
        if inside {
            Orbit::Settled { iteration: budget }
        } else {
            Orbit::Running { iteration: 0 }
        }
    }

    /// The state after one more round. An orbit that has settled stays as it
    /// is. A running one settles at the budget when the budget is used up or
    /// the iterate repeats, at its iteration count when the iterate has bailed
    /// out, and else runs on with one iteration more.
    pub fn advance(self, budget: u32, round: Round) -> (orbit: Orbit)
        ensures
            orbit == advance_spec(self, budget, round),
    {
        match self {
            Orbit::Settled { .. } => self,
            Orbit::Running { iteration } => {
                if iteration >= budget {
                    Orbit::Settled { iteration: budget }
                } else if round.bailed_out {
                    Orbit::Settled { iteration }
                } else if round.repeated {
                    Orbit::Settled { iteration: budget }
                } else {
                    Orbit::Running { iteration: iteration + 1 }
                }
            },
        }
    }

    /// The iteration count of the pixel, once the iteration has stopped.
    pub fn settled(&self) -> (count: Option<u32>)
        ensures
            count == match *self {
                Orbit::Settled { iteration } => Some(iteration),
                Orbit::Running { .. } => None::<u32>,
            },
    {
        match self {
            Orbit::Settled { iteration } => Some(*iteration),
            Orbit::Running { .. } => None,
        }
    }

    /// Whether the pixel escaped: the iteration stopped below the budget.
    pub fn escaped(&self, budget: u32) -> (yes: bool)
        ensures
            yes == (*self matches Orbit::Settled { iteration } && iteration < budget),
    {
        match self {
            Orbit::Settled { iteration } => *iteration < budget,
            Orbit::Running { .. } => false,
        }
    }
}

} // verus!
