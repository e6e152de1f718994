use vstd::prelude::*;

verus! {

/// One of the two players.
#[derive(Debug, Clone, Copy, PartialEq, Eq, Structural)]
pub enum Player {
    One,
    Two,
}

impl Player {
    /// The other player, as a spec function.
    pub open spec fn other(self) -> Player {
        match self {
            Player::One => Player::Two,
            Player::Two => Player::One,
        }
    }

    /// The other player.
    pub fn flip(self) -> (r: Player)
        ensures
            r == self.other(),
            r != self,
    {
        match self {
            Player::One => Player::Two,
            Player::Two => Player::One,
        }
    }

    /// Both players, in seat order.
    pub fn iter() -> (r: Vec<Player>)
        ensures
            r@ == seq![Player::One, Player::Two],
    {
        vec![Player::One, Player::Two]
    }

    /// The name shown for this player.
    pub fn to_string(&self) -> (r: String)
        ensures
            *self == Player::One ==> r@ == "PLAYER 1"@,
            *self == Player::Two ==> r@ == "PLAYER 2"@,
    {
        match self {
            Player::One => "PLAYER 1".to_owned(),
            Player::Two => "PLAYER 2".to_owned(),
        }
    }
}

impl Default for Player {
    fn default() -> (r: Player)
        ensures
            r == Player::One,
    {
        Player::One
    }
}

/// The player whose turn it is.
#[derive(Debug, Clone, Copy, PartialEq, Eq, Structural)]
pub struct CurrentPlayer(pub Player);

impl CurrentPlayer {
    /// Passes the turn to the other player.
    pub fn flip(&mut self)
        ensures
            final(self).0 == old(self).0.other(),
    {
        self.0 = self.0.flip();
    }
}

impl Default for CurrentPlayer {
    fn default() -> (r: CurrentPlayer)
        ensures
            r.0 == Player::One,
    {
        CurrentPlayer(Player::One)
    }
}

/// The rule variant, fixed for a whole game.
#[derive(Debug, Clone, Copy, PartialEq, Eq, Structural)]
pub enum GameMode {
    Avalanche,
    Capture,
}

impl GameMode {
    /// Both modes, in menu order.
    pub fn iter() -> (r: Vec<GameMode>)
        ensures
            r@ == seq![GameMode::Avalanche, GameMode::Capture],
    {
        vec![GameMode::Avalanche, GameMode::Capture]
    }

    /// The name shown for this mode.
    pub fn to_string(&self) -> (r: String)
        ensures
            *self == GameMode::Avalanche ==> r@ == "AVALANCHE"@,
            *self == GameMode::Capture ==> r@ == "CAPTURE"@,
    {
        match self {
            GameMode::Avalanche => "AVALANCHE".to_owned(),
            GameMode::Capture => "CAPTURE".to_owned(),
        }
    }
}

impl Default for GameMode {
    fn default() -> (r: GameMode)
        ensures
            r == GameMode::Avalanche,
    {
        GameMode::Avalanche
    }
}

} // verus!
