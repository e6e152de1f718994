use crate::ai::{AiPlayer, AI_NAME};
use crate::player::Player;
use vstd::prelude::*;

verus! {

/// A player profile: a name and a count of games won.
#[derive(Debug, Clone)]
pub struct Profile {
    pub name: String,
    pub wins: u32,
}

/// All known profiles.
#[derive(Debug, Clone)]
pub struct Profiles(pub Vec<Profile>);

/// The seat index of a player: 0 for One, 1 for Two.
pub open spec fn seat(p: Player) -> int {
    match p {
        Player::One => 0,
        Player::Two => 1,
    }
}

/// The profiles chosen for the two seats, and the seat that the next choice
/// fills.
#[derive(Debug, Clone, Copy)]
pub struct Selected {
    profiles: [usize; 2],
    last_selected: usize,
}

impl Selected {
    /// The seat to be filled next is one of the two seats.
    pub closed spec fn wf(&self) -> bool {
        self.last_selected < 2
    }

    /// The profile chosen for seat `k`.
    pub closed spec fn chosen(&self, k: int) -> usize {
        self.profiles@[k]
    }

    /// The seat that the next choice fills.
    pub closed spec fn next_seat(&self) -> int {
        self.last_selected as int
    }

    /// The first two profiles, the first seat to be filled next.
    pub fn new() -> (r: Selected)
        ensures
            r.wf(),
            r.chosen(0) == 0,
            r.chosen(1) == 1,
            r.next_seat() == 0,
    {
        Selected { profiles: [0, 1], last_selected: 0 }
    }

    /// Exchanges the profiles of the two seats.
    pub fn swap(&mut self)
        requires
            old(self).wf(),
        ensures
            final(self).wf(),
            final(self).chosen(0) == old(self).chosen(1),
            final(self).chosen(1) == old(self).chosen(0),
            final(self).next_seat() == old(self).next_seat(),
    {
        let first = self.profiles[0];
        let second = self.profiles[1];
        self.profiles.set(0, second);
        self.profiles.set(1, first);
    }

    /// Puts `profile_index` in the seat to be filled next; the other seat is
    /// filled by the following choice.
    pub fn select(&mut self, profile_index: usize)
        requires
            old(self).wf(),
        ensures
            final(self).wf(),
            final(self).chosen(old(self).next_seat()) == profile_index,
            final(self).chosen(1 - old(self).next_seat()) == old(self).chosen(
                1 - old(self).next_seat(),
            ),
            final(self).next_seat() == 1 - old(self).next_seat(),
    {
        self.profiles.set(self.last_selected, profile_index);
        self.last_selected = (self.last_selected + 1) % 2;
    }

    /// Whether `profile_index` sits in either seat.
    pub fn is_selected(&self, profile_index: usize) -> (r: bool)
        ensures
            r == (self.chosen(0) == profile_index || self.chosen(1) == profile_index),
    {
        self.profiles[0] == profile_index || self.profiles[1] == profile_index
    }

    /// The profile chosen for `player`.
    pub fn get(&self, player: Player) -> (r: usize)
        ensures
            r == self.chosen(seat(player)),
    {
        match player {
            Player::One => self.profiles[0],
            Player::Two => self.profiles[1],
        }
    }
}

impl Default for Selected {
    fn default() -> (r: Selected)
        ensures
            r.wf(),
            r.chosen(0) == 0,
            r.chosen(1) == 1,
            r.next_seat() == 0,
    {
        Selected::new()
    }
}

/// Whether a profile is the computer's.
pub open spec fn is_ai_profile(p: Profile) -> bool {
    p.name@ == AI_NAME@
}

/// The seat the computer plays: the first seat, in seat order, whose chosen
/// profile is the computer's; `None` when neither is.
pub fn ai_seat(selected: &Selected, profiles: &Profiles) -> (r: AiPlayer)
    requires
        selected.chosen(0) < profiles.0@.len(),
        selected.chosen(1) < profiles.0@.len(),
    ensures
        r.0 == if is_ai_profile(profiles.0@[selected.chosen(0) as int]) {
            Some(Player::One)
        } else if is_ai_profile(profiles.0@[selected.chosen(1) as int]) {
            Some(Player::Two)
        } else {
            None
        },
{
    let ai_name = AI_NAME.to_owned();
    if profiles.0[selected.get(Player::One)].name == ai_name {
        AiPlayer(Some(Player::One))
    } else if profiles.0[selected.get(Player::Two)].name == ai_name {
        AiPlayer(Some(Player::Two))
    } else {
        AiPlayer(None)
    }
}

} // verus!
