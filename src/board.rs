use crate::player::Player;
use vstd::prelude::*;

verus! {

/// The number of pits on the ring, stores included.
pub const LENGTH: usize = 14;

/// Player One's store.
pub const STORE_1: usize = 6;

/// Player Two's store.
pub const STORE_2: usize = 13;

/// Stones placed in every regular pit when a game starts.
pub const SLOT_START_AMOUNT: u32 = 6;

/// The pit counts of a board, as natural numbers.
pub open spec fn model(v: Seq<u32>) -> Seq<nat> {
    v.map_values(|x: u32| x as nat)
}

/// The number of stones on a board.
pub open spec fn total(c: Seq<nat>) -> nat
    decreases c.len(),
{
    if c.len() == 0 {
        0
    } else {
        total(c.drop_last()) + c.last()
    }
}

/// Whether pit `i` is one of the two stores.
pub open spec fn spec_is_store(i: int) -> bool {
    i == STORE_1 || i == STORE_2
}

/// The player pit `i` belongs to: One up to and including One's store.
pub open spec fn spec_owner(i: int) -> Player {
    if i <= STORE_1 {
        Player::One
    } else {
        Player::Two
    }
}

/// The store of `p`.
pub open spec fn spec_store(p: Player) -> int {
    match p {
        Player::One => STORE_1 as int,
        Player::Two => STORE_2 as int,
    }
}

/// The first of a player's six regular pits.
pub open spec fn spec_first_pit(p: Player) -> int {
    match p {
        Player::One => 0,
        Player::Two => STORE_1 + 1,
    }
}

/// Whether `i` is one of the six regular pits of `p`.
pub open spec fn in_pits(i: int, p: Player) -> bool {
    spec_first_pit(p) <= i < spec_store(p)
}

/// The pit across the board from regular pit `i`.
pub open spec fn spec_opposite(i: int) -> int {
    LENGTH - i - 2
}

/// Whether all six regular pits of `p` are empty.
pub open spec fn side_empty(c: Seq<nat>, p: Player) -> bool {
    forall|i: int| in_pits(i, p) ==> c[i] == 0
}

/// A board of fourteen pit counts whose total fits in a `u32`.
pub open spec fn counts_wf(v: Seq<u32>) -> bool {
    v.len() == LENGTH && total(model(v)) <= u32::MAX
}

/// Replacing one count changes the total by the difference.
pub proof fn lemma_total_update(c: Seq<nat>, i: int, x: nat)
    requires
        0 <= i < c.len(),
    ensures
        total(c.update(i, x)) == total(c) - c[i] + x,
    decreases c.len(),
{
    let d = c.update(i, x);
    if i == c.len() - 1 {
        assert(d.drop_last() =~= c.drop_last());
    } else {
        lemma_total_update(c.drop_last(), i, x);
        assert(d.drop_last() =~= c.drop_last().update(i, x));
    }
}

/// No single count exceeds the total.
pub proof fn lemma_count_le_total(c: Seq<nat>, i: int)
    requires
        0 <= i < c.len(),
    ensures
        c[i] <= total(c),
    decreases c.len(),
{
    if i < c.len() - 1 {
        lemma_count_le_total(c.drop_last(), i);
    }
}

/// The model of a vector after one element is set.
pub proof fn lemma_model_update(v: Seq<u32>, i: int, x: u32)
    requires
        0 <= i < v.len(),
    ensures
        model(v.update(i, x)) == model(v).update(i, x as nat),
{
    assert(model(v.update(i, x)) =~= model(v).update(i, x as nat));
}

/// The board: fourteen pit counts addressed by index.
///
/// Pits `0..6` are player One's, pit 6 is One's store, pits `7..13` are
/// player Two's and pit 13 is Two's store.
pub struct Board {
    pub counts: Vec<u32>,
}

impl Board {
    pub const LENGTH: usize = 14;
    pub const STORE_1: usize = 6;
    pub const STORE_2: usize = 13;
    pub const ROWS: usize = 2;
    pub const COLS: usize = 6;

    /// Fourteen counts whose total fits in a `u32`.
    pub open spec fn wf(&self) -> bool {
        counts_wf(self.counts@)
    }

    /// The counts as natural numbers.
    pub open spec fn view(&self) -> Seq<nat> {
        model(self.counts@)
    }

    /// The counts of a board ready for play.
    pub open spec fn new_view() -> Seq<nat> {
        Seq::new(
            LENGTH as nat,
            |i: int|
                if spec_is_store(i) {
                    0nat
                } else {
                    SLOT_START_AMOUNT as nat
                },
        )
    }

    /// A board ready for play: six stones in each regular pit, empty stores.
    pub fn new() -> (b: Board)
        ensures
            b.wf(),
            b.view() == Board::new_view(),
            total(b.view()) == 12 * SLOT_START_AMOUNT,
    {
        let mut counts: Vec<u32> = Vec::new();
        let mut index: usize = 0;
        while index < LENGTH
            invariant
                index <= LENGTH,
                counts@.len() == index,
                forall|i: int| 0 <= i < index ==> counts@[i] == if spec_is_store(i) {
                    0u32
                } else {
                    SLOT_START_AMOUNT
                },
                total(model(counts@)) == (if index <= STORE_1 {
                    index as int
                } else if index <= STORE_2 {
                    index - 1
                } else {
                    index - 2
                }) * SLOT_START_AMOUNT,
            decreases LENGTH - index,
        {
            let count: u32 = if Board::is_store(index) {
                0
            } else {
                SLOT_START_AMOUNT
            };
            proof {
                assert(model(counts@.push(count)).drop_last() =~= model(counts@));
                assert(model(counts@.push(count)).last() == count as nat);
            }
            counts.push(count);
            index = index + 1;
        }
        proof {
            assert(model(counts@) =~= Board::new_view());
        }
        Board { counts }
    }

    /// Whether pit `index` is a store.
    pub fn is_store(index: usize) -> (r: bool)
        ensures
            r == spec_is_store(index as int),
    {
        index == Self::STORE_1 || index == Self::STORE_2
    }

    /// The store of `player`.
    pub fn get_store(player: Player) -> (r: usize)
        ensures
            r == spec_store(player),
    {
        match player {
            Player::One => Self::STORE_1,
            Player::Two => Self::STORE_2,
        }
    }

    /// The six regular pits of `player`, as a half-open range.
    pub fn get_slots(player: Player) -> (r: std::ops::Range<usize>)
        ensures
            r.start == spec_first_pit(player),
            r.end == spec_store(player),
    {
        match player {
            Player::One => 0..Self::STORE_1,
            Player::Two => Self::STORE_1 + 1..Self::STORE_2,
        }
    }

    /// The player who owns pit `index`.
    pub fn owner(index: usize) -> (r: Player)
        ensures
            r == spec_owner(index as int),
    {
        if index <= Self::STORE_1 {
            Player::One
        } else {
            Player::Two
        }
    }

    /// The pit across the board from regular pit `index`.
    pub fn opposite(index: usize) -> (r: usize)
        requires
            index < LENGTH,
            !spec_is_store(index as int),
        ensures
            r == spec_opposite(index as int),
            r < LENGTH,
            !spec_is_store(r as int),
            spec_owner(r as int) != spec_owner(index as int),
    {
        Self::LENGTH - index - 2
    }

    /// All fourteen indices in display order: One's pits and store mirrored
    /// around the middle of the board, then Two's pits and store in order.
    pub fn slot_order() -> (r: Vec<usize>)
        ensures
            r@.len() == LENGTH,
            forall|s: int| 0 <= s < LENGTH ==> r@[s] == if s > 6 { s } else { 6 - s },
    {
        let mid: usize = (Self::LENGTH - 2) / 2;
        let mut order: Vec<usize> = Vec::new();
        let mut s: usize = 0;
        while s < Self::LENGTH
            invariant
                mid == 6,
                s <= LENGTH,
                order@.len() == s,
                forall|t: int| 0 <= t < s ==> order@[t] == if t > 6 { t } else { 6 - t },
            decreases LENGTH - s,
        {
            order.push(if s > mid { s } else { mid - s });
            s = s + 1;
        }
        order
    }
}

impl Default for Board {
    fn default() -> (b: Board)
        ensures
            b.wf(),
            b.view() == Board::new_view(),
    {
        Board::new()
    }
}

} // verus!
