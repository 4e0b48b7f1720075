//! Which team is chosen when the game is over.

use crate::game::{Game, GameView};
use crate::roster::team_power;
use vstd::prelude::*;

verus! {

/// Whether team number `team` is chosen: no team has a greater total, and
/// no other team has the same.
pub open spec fn leads(totals: Seq<nat>, team: int) -> bool {
    &&& 0 <= team < totals.len()
    &&& forall|other: int| 0 <= other < totals.len() ==> totals[other] <= totals[team]
    &&& forall|other: int|
        0 <= other < totals.len() && other != team ==> totals[other] != totals[team]
}

/// The number of the team that is chosen, if one is. None is where the
/// greatest total is shared, or where there is no team at all.
pub open spec fn winner(totals: Seq<nat>) -> Option<int> {
    if exists|team: int| leads(totals, team) {
        Some(choose|team: int| leads(totals, team))
    } else {
        None
    }
}

/// Totals as plain numbers.
pub open spec fn amounts(totals: Seq<u64>) -> Seq<nat> {
    totals.map_values(|total: u64| total as nat)
}

impl GameView {
    /// The summed power of each team, in the order of the teams.
    pub open spec fn team_totals(self) -> Seq<nat> {
        Seq::new(self.teams.len(), |team: int| team_power(self.players, team as nat))
    }

    /// The number of the team that is chosen, if one is.
    pub open spec fn winner(self) -> Option<int> {
        winner(self.team_totals())
    }
}

/// No two teams are chosen.
pub proof fn lemma_one_leader(totals: Seq<nat>, one: int, other: int)
    requires
        leads(totals, one),
        leads(totals, other),
    ensures
        one == other,
{
    assert(totals[other] <= totals[one]);
}

/// Finds the team that is chosen: the one whose total is the greatest, if
/// no other team has the same.
pub fn winner_of(totals: &Vec<u64>) -> (chosen: Option<usize>)
    ensures
        match chosen {
            Some(team) => winner(amounts(totals@)) == Some(team as int),
            None => winner(amounts(totals@)) is None,
        },
{
    let ghost all = amounts(totals@);
    if totals.len() == 0 {
        return None;
    }
    let mut best: usize = 0;
    let mut alone = true;
    let ghost mut rival: int = 0;
    for i in 1..totals.len()
        invariant
            all == amounts(totals@),
            best < i,
            forall|j: int| 0 <= j < i ==> all[j] <= all[best as int],
            alone ==> forall|j: int| 0 <= j < i && j != best ==> all[j] != all[best as int],
            !alone ==> 0 <= rival < i && rival != best && all[rival] == all[best as int],
    {
        if totals[i] > totals[best] {
            best = i;
            alone = true;
        } else if totals[i] == totals[best] {
            alone = false;
            proof {
                rival = i as int;
            }
        }
    }
    if alone {
        proof {
            assert(leads(all, best as int));
            lemma_one_leader(all, best as int, winner(all)->0);
        }
        Some(best)
    } else {
        proof {
            assert forall|team: int| !leads(all, team) by {
                if leads(all, team) {
                    let sharer = if team == best { rival } else { best as int };
                    assert(all[sharer] == all[team]);
                }
            }
        }
        None
    }
}

impl Game {
    /// The number of the team that is chosen: the one with the greatest
    /// summed power, if no other team has the same.
    pub fn get_winner_index(&self) -> (chosen: Option<usize>)
        requires
            self.well_formed(),
        ensures
            match chosen {
                Some(team) => self@.winner() == Some(team as int),
                None => self@.winner() is None,
            },
    {
        let totals = self.team_totals();
        assert(amounts(totals@) == self@.team_totals());
        winner_of(&totals)
    }
}

} // verus!
