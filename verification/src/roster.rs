//! The players of a game, each found under its own name.

use crate::outcome::Warning;
use crate::player::{
    attack_refusal, attacker_after, flip_refusal, flipped_after, heal_refusal, healed_after,
    healer_after, target_after, verdict, Player, PlayerView, MAX_POWER,
};
use vstd::prelude::*;

verus! {

/// The most players that a roster is asked to add up.
pub const MAX_PLAYERS: usize = 100;

/// The roster that holds the given records, entered one after the other
/// under their names. A later record takes the place of an earlier one of
/// the same name.
pub open spec fn roster_of(records: Seq<PlayerView>) -> Map<Seq<char>, PlayerView>
    decreases records.len(),
{
    if records.len() == 0 {
        Map::empty()
    } else {
        roster_of(records.drop_last()).insert(records.last().name, records.last())
    }
}

/// Every player is filed under its own name, and there are finitely many.
pub open spec fn keyed_by_name(players: Map<Seq<char>, PlayerView>) -> bool {
    &&& players.dom().finite()
    &&& forall|name: Seq<char>| #[trigger]
        players.dom().contains(name) ==> players[name].name == name
}

/// What `player` adds to the power of `team`: all its power if it belongs
/// to the team, and nothing otherwise.
pub open spec fn share(player: PlayerView, team: nat) -> nat {
    if player.team_number == team {
        player.power
    } else {
        0
    }
}

/// The summed power of the players of `team`.
pub open spec fn team_power(players: Map<Seq<char>, PlayerView>, team: nat) -> nat
    decreases players.dom().len(),
    when players.dom().finite()
{
    if players.dom().len() == 0 {
        0
    } else {
        let name = players.dom().choose();
        share(players[name], team) + team_power(players.remove(name), team)
    }
}

/// The players once `actor` has attacked `target`. Where both names are the
/// same, the one player duels itself, which is a tie.
pub open spec fn after_attack(
    players: Map<Seq<char>, PlayerView>,
    actor: Seq<char>,
    target: Seq<char>,
) -> Map<Seq<char>, PlayerView> {
    players.insert(target, target_after(players[actor], players[target])).insert(
        actor,
        attacker_after(players[actor], players[target]),
    )
}

/// The players once `actor` has healed `target`.
pub open spec fn after_heal(
    players: Map<Seq<char>, PlayerView>,
    actor: Seq<char>,
    target: Seq<char>,
) -> Map<Seq<char>, PlayerView> {
    players.insert(target, healed_after(players[actor], players[target])).insert(
        actor,
        healer_after(players[actor], players[target]),
    )
}

/// The players once `actor` and `target` have left and `merged` has come in
/// under its own name.
pub open spec fn after_merge(
    players: Map<Seq<char>, PlayerView>,
    actor: Seq<char>,
    target: Seq<char>,
    merged: PlayerView,
) -> Map<Seq<char>, PlayerView> {
    players.remove(actor).remove(target).insert(merged.name, merged)
}

/// No two records bear the same name.
spec fn names_distinct(records: Seq<PlayerView>) -> bool {
    forall|i: int, j: int|
        0 <= i < records.len() && 0 <= j < records.len() && i != j ==> (#[trigger] records[i]).name
            != (#[trigger] records[j]).name
}

/// Whether one of the records bears `name`.
spec fn names_include(records: Seq<PlayerView>, name: Seq<char>) -> bool {
    exists|i: int| 0 <= i < records.len() && (#[trigger] records[i]).name == name
}

/// The names in the roster of some records are the names of the records.
proof fn lemma_roster_names(records: Seq<PlayerView>)
    ensures
        roster_of(records).dom().finite(),
        forall|name: Seq<char>| #[trigger]
            roster_of(records).dom().contains(name) <==> names_include(records, name),
    decreases records.len(),
{
    if records.len() > 0 {
        let earlier = records.drop_last();
        lemma_roster_names(earlier);
        assert forall|name: Seq<char>| #[trigger]
            roster_of(records).dom().contains(name) <==> names_include(records, name) by {
            if names_include(records, name) {
                let i = choose|i: int| 0 <= i < records.len() && (#[trigger] records[i]).name == name;
                if i < earlier.len() {
                    assert(earlier[i].name == name);
                }
            }
            if roster_of(earlier).dom().contains(name) {
                let i = choose|i: int| 0 <= i < earlier.len() && (#[trigger] earlier[i]).name == name;
                assert(records[i].name == name);
            }
        }
    }
}

/// Where no name occurs twice, each record is what the roster holds under
/// its name, and the roster has as many players as there are records.
proof fn lemma_roster_entries(records: Seq<PlayerView>)
    requires
        names_distinct(records),
    ensures
        roster_of(records).dom().len() == records.len(),
        forall|i: int|
            0 <= i < records.len() ==> {
                &&& roster_of(records).dom().contains((#[trigger] records[i]).name)
                &&& roster_of(records)[records[i].name] == records[i]
            },
    decreases records.len(),
{
    if records.len() > 0 {
        let earlier = records.drop_last();
        let last = records.last();
        assert(names_distinct(earlier)) by {
            assert forall|i: int, j: int|
                0 <= i < earlier.len() && 0 <= j < earlier.len() && i != j implies (
            #[trigger] earlier[i]).name != (#[trigger] earlier[j]).name by {
                assert(records[i].name != records[j].name);
            }
        }
        lemma_roster_entries(earlier);
        lemma_roster_names(earlier);
        assert(!names_include(earlier, last.name)) by {
            if names_include(earlier, last.name) {
                let i = choose|i: int|
                    0 <= i < earlier.len() && (#[trigger] earlier[i]).name == last.name;
                assert(records[i].name == records[records.len() - 1].name);
            }
        }
        assert forall|i: int| 0 <= i < records.len() implies {
            &&& roster_of(records).dom().contains((#[trigger] records[i]).name)
            &&& roster_of(records)[records[i].name] == records[i]
        } by {
            if i < earlier.len() {
                assert(earlier[i] == records[i]);
            }
        }
    }
}

/// Where no name occurs twice and a record gives way to another of the same
/// name, still no name occurs twice, and the roster holds the new record
/// under that name and is otherwise as it was.
proof fn lemma_replaced_record(records: Seq<PlayerView>, place: int, record: PlayerView)
    requires
        names_distinct(records),
        0 <= place < records.len(),
        records[place].name == record.name,
    ensures
        names_distinct(records.update(place, record)),
        roster_of(records.update(place, record)) == roster_of(records).insert(record.name, record),
{
    let after = records.update(place, record);
    let wanted = roster_of(records).insert(record.name, record);
    assert(names_distinct(after)) by {
        assert forall|i: int, j: int|
            0 <= i < after.len() && 0 <= j < after.len() && i != j implies (#[trigger] after[i]).name
            != (#[trigger] after[j]).name by {
            assert(records[i].name != records[j].name);
        }
    }
    lemma_roster_names(records);
    lemma_roster_names(after);
    lemma_roster_entries(records);
    lemma_roster_entries(after);
    assert forall|name: Seq<char>| #[trigger]
        roster_of(after).dom().contains(name) <==> wanted.dom().contains(name) by {
        if names_include(after, name) {
            let i = choose|i: int| 0 <= i < after.len() && (#[trigger] after[i]).name == name;
            assert(records[i].name == name);
        }
        if names_include(records, name) {
            let i = choose|i: int| 0 <= i < records.len() && (#[trigger] records[i]).name == name;
            assert(after[i].name == name);
        }
        if name == record.name {
            assert(after[place].name == name);
        }
    }
    assert forall|name: Seq<char>| #[trigger]
        roster_of(after).dom().contains(name) implies roster_of(after)[name] == wanted[name] by {
        let i = choose|i: int| 0 <= i < after.len() && (#[trigger] after[i]).name == name;
        assert(roster_of(after)[after[i].name] == after[i]);
        if i != place {
            assert(records[i].name != records[place].name);
            assert(roster_of(records)[records[i].name] == records[i]);
        }
    }
    assert(roster_of(after) =~= wanted);
}

/// Where no name occurs twice and a record of a new name comes last, still
/// no name occurs twice.
proof fn lemma_added_record(records: Seq<PlayerView>, record: PlayerView)
    requires
        names_distinct(records),
        !roster_of(records).dom().contains(record.name),
    ensures
        names_distinct(records.push(record)),
        roster_of(records.push(record)) == roster_of(records).insert(record.name, record),
{
    let after = records.push(record);
    lemma_roster_names(records);
    assert(after.drop_last() == records);
    assert forall|i: int, j: int|
        0 <= i < after.len() && 0 <= j < after.len() && i != j implies (#[trigger] after[i]).name
        != (#[trigger] after[j]).name by {
        if i < records.len() && j < records.len() {
            assert(records[i].name != records[j].name);
        } else if i < records.len() {
            assert(records[i].name != record.name);
        } else {
            assert(records[j].name != record.name);
        }
    }
}

/// Where no name occurs twice and a record is taken out, still no name
/// occurs twice, and the roster lacks that record's name and is otherwise
/// as it was.
proof fn lemma_removed_record(records: Seq<PlayerView>, place: int)
    requires
        names_distinct(records),
        0 <= place < records.len(),
    ensures
        names_distinct(records.remove(place)),
        roster_of(records.remove(place)) == roster_of(records).remove(records[place].name),
        roster_of(records)[records[place].name] == records[place],
{
    let after = records.remove(place);
    let gone = records[place].name;
    let wanted = roster_of(records).remove(gone);
    assert(names_distinct(after)) by {
        assert forall|a: int, b: int|
            0 <= a < after.len() && 0 <= b < after.len() && a != b implies (#[trigger] after[a]).name
            != (#[trigger] after[b]).name by {
            let x = if a < place { a } else { a + 1 };
            let y = if b < place { b } else { b + 1 };
            assert(records[x].name != records[y].name);
        }
    }
    lemma_roster_names(records);
    lemma_roster_names(after);
    lemma_roster_entries(records);
    lemma_roster_entries(after);
    assert(roster_of(records)[records[place].name] == records[place]);
    assert forall|name: Seq<char>| #[trigger]
        roster_of(after).dom().contains(name) <==> wanted.dom().contains(name) by {
        if names_include(after, name) {
            let a = choose|a: int| 0 <= a < after.len() && (#[trigger] after[a]).name == name;
            let x = if a < place { a } else { a + 1 };
            assert(records[x].name == name);
            assert(records[x].name != records[place].name);
        }
        if names_include(records, name) && name != gone {
            let x = choose|x: int| 0 <= x < records.len() && (#[trigger] records[x]).name == name;
            let a = if x < place { x } else { x - 1 };
            assert(after[a].name == name);
        }
    }
    assert forall|name: Seq<char>| #[trigger]
        roster_of(after).dom().contains(name) implies roster_of(after)[name] == wanted[name] by {
        let a = choose|a: int| 0 <= a < after.len() && (#[trigger] after[a]).name == name;
        let x = if a < place { a } else { a + 1 };
        assert(roster_of(after)[after[a].name] == after[a]);
        assert(roster_of(records)[records[x].name] == records[x]);
    }
    assert(roster_of(after) =~= wanted);
}

/// The roster of records that all belong to one of the first `teams` teams
/// and hold no more than the greatest power is made of such players, each
/// under its name, and of no more players than there are records.
pub proof fn lemma_roster_of_sound(records: Seq<PlayerView>, teams: nat)
    requires
        forall|i: int|
            0 <= i < records.len() ==> (#[trigger] records[i]).power <= MAX_POWER
                && records[i].team_number < teams,
    ensures
        keyed_by_name(roster_of(records)),
        roster_of(records).dom().len() <= records.len(),
        forall|name: Seq<char>| #[trigger]
            roster_of(records).dom().contains(name) ==> roster_of(records)[name].power
                <= MAX_POWER && roster_of(records)[name].team_number < teams,
    decreases records.len(),
{
    if records.len() > 0 {
        let earlier = records.drop_last();
        assert forall|i: int| 0 <= i < earlier.len() implies (#[trigger] earlier[i]).power
            <= MAX_POWER && earlier[i].team_number < teams by {
            assert(earlier[i] == records[i]);
        }
        lemma_roster_of_sound(earlier, teams);
        assert(records[records.len() - 1].power <= MAX_POWER);
    }
}

/// The power of a team counts each player once, whichever is taken first.
pub proof fn lemma_team_power_remove(
    players: Map<Seq<char>, PlayerView>,
    name: Seq<char>,
    team: nat,
)
    requires
        players.dom().finite(),
        players.dom().contains(name),
    ensures
        team_power(players, team) == share(players[name], team) + team_power(
            players.remove(name),
            team,
        ),
    decreases players.dom().len(),
{
    let chosen = players.dom().choose();
    if chosen != name {
        lemma_team_power_remove(players.remove(chosen), name, team);
        lemma_team_power_remove(players.remove(name), chosen, team);
        assert(players.remove(chosen).remove(name) == players.remove(name).remove(chosen));
    }
}

/// A player that comes in under a new name adds its share to the power of
/// each team.
pub proof fn lemma_team_power_insert(
    players: Map<Seq<char>, PlayerView>,
    name: Seq<char>,
    player: PlayerView,
    team: nat,
)
    requires
        players.dom().finite(),
        !players.dom().contains(name),
    ensures
        team_power(players.insert(name, player), team) == team_power(players, team) + share(
            player,
            team,
        ),
{
    lemma_team_power_remove(players.insert(name, player), name, team);
    assert(players.insert(name, player).remove(name) == players);
}

/// The players of a game. No two of them bear the same name.
pub struct Roster {
    entries: Vec<Player>,
}

impl View for Roster {
    type V = Map<Seq<char>, PlayerView>;

    closed spec fn view(&self) -> Map<Seq<char>, PlayerView> {
        roster_of(self.records())
    }
}

impl Roster {
    /// The players as they are stored.
    closed spec fn records(&self) -> Seq<PlayerView> {
        self.entries@.map_values(|p: Player| p@)
    }

    /// The roster is sound: no name occurs twice in it.
    pub closed spec fn well_formed(&self) -> bool {
        names_distinct(self.records())
    }

    /// In a sound roster every player is filed under its own name.
    pub proof fn lemma_keyed_by_name(&self)
        requires
            self.well_formed(),
        ensures
            keyed_by_name(self@),
    {
        let records = self.records();
        lemma_roster_names(records);
        lemma_roster_entries(records);
        assert forall|name: Seq<char>| #[trigger] self@.dom().contains(name) implies self@[name].name
            == name by {
            let i = choose|i: int| 0 <= i < records.len() && (#[trigger] records[i]).name == name;
            assert(self@[records[i].name] == records[i]);
        }
    }

    /// A roster without players.
    pub fn new() -> (roster: Roster)
        ensures
            roster.well_formed(),
            roster@ == Map::<Seq<char>, PlayerView>::empty(),
    {
        Roster { entries: Vec::new() }
    }

    /// The number of players.
    pub fn len(&self) -> (count: usize)
        requires
            self.well_formed(),
        ensures
            count == self@.dom().len(),
    {
        proof {
            lemma_roster_entries(self.records());
        }
        self.entries.len()
    }

    /// Where the player called `name` is stored, if there is one.
    fn find(&self, name: &str) -> (place: Option<usize>)
        requires
            self.well_formed(),
        ensures
            place is Some <==> self@.dom().contains(name@),
            place matches Some(i) ==> i < self.records().len() && self.records()[i as int].name
                == name@,
    {
        proof {
            lemma_roster_names(self.records());
        }
        for i in 0..self.entries.len()
            invariant
                forall|j: int| 0 <= j < i ==> (#[trigger] self.records()[j]).name != name@,
        {
            if crate::text::same_text(self.entries[i].name.as_str(), name) {
                proof {
                    lemma_roster_names(self.records());
                    assert(self.records()[i as int].name == name@);
                }
                return Some(i);
            }
        }
        None
    }

    /// Puts `player` where another of the same name stands.
    fn store(&mut self, place: usize, player: Player)
        requires
            old(self).well_formed(),
            place < old(self).records().len(),
            old(self).records()[place as int].name == player@.name,
        ensures
            final(self).well_formed(),
            final(self).records() == old(self).records().update(place as int, player@),
            final(self)@ == old(self)@.insert(player@.name, player@),
    {
        let ghost before = self.records();
        self.entries[place] = player;
        proof {
            lemma_replaced_record(before, place as int, player@);
            assert(self.records() == before.update(place as int, player@));
        }
    }

    /// The player called `name`, if there is one.
    pub fn get(&self, name: &str) -> (found: Option<&Player>)
        requires
            self.well_formed(),
        ensures
            found is Some <==> self@.dom().contains(name@),
            found matches Some(player) ==> player@ == self@[name@],
    {
        match self.find(name) {
            Some(i) => {
                proof {
                    lemma_roster_entries(self.records());
                }
                Some(&self.entries[i])
            },
            None => None,
        }
    }

    /// Enters `player` under its name, in place of any player of that name.
    pub fn insert(&mut self, player: Player)
        requires
            old(self).well_formed(),
        ensures
            final(self).well_formed(),
            final(self)@ == old(self)@.insert(player@.name, player@),
    {
        match self.find(player.name.as_str()) {
            Some(i) => {
                self.store(i, player);
            },
            None => {
                let ghost before = self.records();
                self.entries.push(player);
                proof {
                    lemma_added_record(before, player@);
                    assert(self.records() == before.push(player@));
                }
            },
        }
    }

    /// Takes the player called `name` out, if there is one.
    pub fn remove(&mut self, name: &str) -> (taken: Option<Player>)
        requires
            old(self).well_formed(),
        ensures
            final(self).well_formed(),
            final(self)@ == old(self)@.remove(name@),
            taken is Some <==> old(self)@.dom().contains(name@),
            taken matches Some(player) ==> player@ == old(self)@[name@],
    {
        match self.find(name) {
            Some(i) => {
                let ghost before = self.records();
                let player = self.entries.remove(i);
                proof {
                    lemma_removed_record(before, i as int);
                    assert(self.records() == before.remove(i as int));
                }
                Some(player)
            },
            None => None,
        }
    }

    /// Lets the player called `actor` attack the one called `target`, which
    /// may be the same player. Nothing happens unless both are there.
    pub fn attack(&mut self, actor: &str, target: &str) -> (outcome: Option<Result<(), Warning>>)
        requires
            old(self).well_formed(),
        ensures
            final(self).well_formed(),
            outcome is Some <==> old(self)@.dom().contains(actor@) && old(self)@.dom().contains(
                target@,
            ),
            outcome is None ==> final(self)@ == old(self)@,
            outcome matches Some(result) ==> {
                &&& result == verdict(attack_refusal(old(self)@[actor@]))
                &&& final(self)@ == after_attack(old(self)@, actor@, target@)
            },
    {
        let i = self.find(actor)?;
        let j = self.find(target)?;
        proof {
            lemma_roster_entries(self.records());
        }
        let mut first = self.entries[i].clone();
        let mut second = self.entries[j].clone();
        let result = first.attack(&mut second);
        self.store(j, second);
        self.store(i, first);
        Some(result)
    }

    /// Lets the player called `actor` heal the one called `target`. Nothing
    /// happens unless both are there.
    pub fn heal(&mut self, actor: &str, target: &str) -> (outcome: Option<Result<(), Warning>>)
        requires
            old(self).well_formed(),
        ensures
            final(self).well_formed(),
            outcome is Some <==> old(self)@.dom().contains(actor@) && old(self)@.dom().contains(
                target@,
            ),
            outcome is None ==> final(self)@ == old(self)@,
            outcome matches Some(result) ==> {
                &&& result == verdict(heal_refusal(old(self)@[actor@], old(self)@[target@]))
                &&& final(self)@ == after_heal(old(self)@, actor@, target@)
            },
    {
        let i = self.find(actor)?;
        let j = self.find(target)?;
        proof {
            lemma_roster_entries(self.records());
        }
        let mut first = self.entries[i].clone();
        let mut second = self.entries[j].clone();
        let result = first.heal(&mut second);
        self.store(j, second);
        self.store(i, first);
        Some(result)
    }

    /// Lets the player called `actor` flip its visibility, if it is there.
    pub fn flip_visibility(&mut self, actor: &str) -> (outcome: Option<Result<(), Warning>>)
        requires
            old(self).well_formed(),
        ensures
            final(self).well_formed(),
            outcome is Some <==> old(self)@.dom().contains(actor@),
            outcome is None ==> final(self)@ == old(self)@,
            outcome matches Some(result) ==> {
                &&& result == verdict(flip_refusal(old(self)@[actor@]))
                &&& final(self)@ == old(self)@.insert(actor@, flipped_after(old(self)@[actor@]))
            },
    {
        let i = self.find(actor)?;
        proof {
            lemma_roster_entries(self.records());
        }
        let mut player = self.entries[i].clone();
        let result = player.flip_visibility();
        self.store(i, player);
        Some(result)
    }

    /// Takes out the players called `actor` and `target`, as far as they are
    /// there, and enters `merged` in their place, all in one step.
    pub fn replace_pair(&mut self, actor: &str, target: &str, merged: Player)
        requires
            old(self).well_formed(),
        ensures
            final(self).well_formed(),
            final(self)@ == after_merge(old(self)@, actor@, target@, merged@),
    {
        self.remove(actor);
        self.remove(target);
        self.insert(merged);
    }

    /// The summed power of each of the first `teams` teams.
    pub fn team_totals(&self, teams: usize) -> (totals: Vec<u64>)
        requires
            self.well_formed(),
            self@.dom().len() <= MAX_PLAYERS,
            forall|name: Seq<char>| #[trigger]
                self@.dom().contains(name) ==> self@[name].power <= MAX_POWER
                    && self@[name].team_number < teams,
        ensures
            totals@.len() == teams,
            forall|team: int| 0 <= team < teams ==> #[trigger] totals@[team] == team_power(
                self@,
                team as nat,
            ),
    {
        let mut totals: Vec<u64> = Vec::new();
        for team in 0..teams
            invariant
                totals@.len() == team,
                forall|t: int| 0 <= t < team ==> #[trigger] totals@[t] == 0,
        {
            totals.push(0);
        }
        let ghost records = self.records();
        proof {
            lemma_roster_entries(records);
        }
        for i in 0..self.entries.len()
            invariant
                records == self.records(),
                names_distinct(records),
                records.len() == self.entries.len(),
                records.len() <= MAX_PLAYERS,
                forall|k: int|
                    0 <= k < records.len() ==> (#[trigger] records[k]).power <= MAX_POWER
                        && records[k].team_number < teams,
                totals@.len() == teams,
                forall|t: int|
                    0 <= t < teams ==> #[trigger] totals@[t] == team_power(
                        roster_of(records.take(i as int)),
                        t as nat,
                    ),
                forall|t: int| 0 <= t < teams ==> #[trigger] totals@[t] <= i * MAX_POWER,
        {
            let player = &self.entries[i];
            let ghost record = records[i as int];
            let ghost sooner = records.take(i as int);
            proof {
                assert(records.take(i + 1).drop_last() == sooner);
                assert(roster_of(records.take(i + 1)) == roster_of(sooner).insert(
                    record.name,
                    record,
                ));
                lemma_roster_names(sooner);
                assert(!names_include(sooner, record.name)) by {
                    if names_include(sooner, record.name) {
                        let k = choose|k: int|
                            0 <= k < sooner.len() && (#[trigger] sooner[k]).name == record.name;
                        assert(records[k].name == records[i as int].name);
                    }
                }
            }
            let team: usize = player.team_number as usize;
            let ghost earlier = totals@;
            totals.set(team, totals[team] + player.power);
            proof {
                assert forall|t: int| 0 <= t < teams implies #[trigger] totals@[t] == team_power(
                    roster_of(records.take(i + 1)),
                    t as nat,
                ) by {
                    lemma_team_power_insert(roster_of(sooner), record.name, record, t as nat);
                }
            }
        }
        proof {
            assert(records.take(records.len() as int) == records);
        }
        totals
    }
}

} // verus!
