//! Continents: named groups of territories that reward full occupation.
use vstd::prelude::*;

verus! {

/// A continent groups territories together.
#[derive(Debug)]
pub struct Continent {
    /// The position of the continent on its board.
    pub index: usize,
    pub name: String,
    /// How many territories of the continent each player occupies, by player index.
    pub territories_per_player: Vec<u32>,
    /// Armies rewarded for occupying the entire continent.
    pub armies_reward: u32,
    /// The number of territories the continent contains.
    pub size: u32,
}

impl Continent {
    /// Creates a continent that nobody occupies yet, for a game of `players` players.
    pub fn new(name: &str, players: usize, armies_reward: u32, size: u32) -> (continent: Continent)
        ensures
            continent.index == 0,
            continent.name@ == name@,
            continent.territories_per_player@ == Seq::new(players as nat, |p: int| 0u32),
            continent.armies_reward == armies_reward,
            continent.size == size,
    {
        let mut counters: Vec<u32> = Vec::new();
        let mut seat: usize = 0;
        while seat < players
            invariant
                seat <= players,
                counters@ == Seq::new(seat as nat, |p: int| 0u32),
            decreases players - seat,
        {
            counters.push(0);
            seat += 1;
        }
        Continent {
            index: 0,
            name: name.to_owned(),
            territories_per_player: counters,
            armies_reward,
            size,
        }
    }

    /// Whether `player` occupies every territory of the continent.
    pub open spec fn completed_by(self, player: int) -> bool {
        &&& 0 <= player < self.territories_per_player@.len()
        &&& self.size > 0
        &&& self.territories_per_player@[player] == self.size
    }
}

/// Numbers the continents by their position in the list.
pub fn generate_ids(continents: &mut Vec<Continent>)
    ensures
        final(continents)@.len() == old(continents)@.len(),
        forall|i: int|
            0 <= i < old(continents)@.len() ==> #[trigger] final(continents)@[i] == (Continent {
                index: i as usize,
                ..old(continents)@[i]
            }),
{
    let mut i: usize = 0;
    while i < continents.len()
        invariant
            i <= continents@.len(),
            continents@.len() == old(continents)@.len(),
            forall|j: int|
                0 <= j < i ==> #[trigger] continents@[j] == (Continent {
                    index: j as usize,
                    ..old(continents)@[j]
                }),
            forall|j: int| i <= j < continents@.len() ==> continents@[j] == old(continents)@[j],
        decreases continents@.len() - i,
    {
        continents[i].index = i;
        i += 1;
    }
}

} // verus!
