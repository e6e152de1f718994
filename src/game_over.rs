use crate::board::{
    counts_wf, lemma_count_le_total, lemma_model_update, lemma_total_update, model, side_empty,
    spec_first_pit, spec_store, total, Board, STORE_1, STORE_2,
};
use crate::player::{GameMode, Player};
use crate::turn::CaptureEvent;
use vstd::prelude::*;

verus! {

/// The winner of a finished game; `None` for a draw.
#[derive(Debug, Clone, Copy, PartialEq, Eq, Structural)]
pub struct Winner(pub Option<Player>);

/// The stones in the six regular pits of `p`.
pub open spec fn side_sum(c: Seq<nat>, p: Player) -> nat {
    total(c.subrange(spec_first_pit(p), spec_store(p)))
}

/// The board after the regular pits of `p` are emptied into `p`'s store.
pub open spec fn swept(c: Seq<nat>, p: Player) -> Seq<nat> {
    Seq::new(
        c.len(),
        |i: int|
            if spec_first_pit(p) <= i < spec_store(p) {
                0
            } else if i == spec_store(p) {
                c[i] + side_sum(c, p)
            } else {
                c[i]
            },
    )
}

/// Whether the game is over: one side's regular pits are all empty.
pub open spec fn game_is_over(c: Seq<nat>) -> bool {
    side_empty(c, Player::One) || side_empty(c, Player::Two)
}

/// The side whose remaining stones are swept at the end of a game: in
/// Capture mode, the side that still holds stones.
pub open spec fn sweep_side(c: Seq<nat>, mode: GameMode) -> Option<Player> {
    if mode == GameMode::Capture && !side_empty(c, Player::One) {
        Some(Player::One)
    } else if mode == GameMode::Capture && !side_empty(c, Player::Two) {
        Some(Player::Two)
    } else {
        None
    }
}

/// The board at the end of a game, after the sweep if there is one.
pub open spec fn final_board(c: Seq<nat>, mode: GameMode) -> Seq<nat> {
    match sweep_side(c, mode) {
        Some(p) => swept(c, p),
        None => c,
    }
}

/// The winner for two scores.
pub open spec fn winner_of(one: nat, two: nat) -> Option<Player> {
    if one > two {
        Some(Player::One)
    } else if one < two {
        Some(Player::Two)
    } else {
        None
    }
}

/// What a finished game reports: the winner, and the sweep if there was one.
pub struct GameOverEvent {
    pub winner: Winner,
    pub sweep: Option<CaptureEvent>,
}

/// The record of `p`'s regular pits swept into `p`'s store.
pub open spec fn is_sweep_record(ev: CaptureEvent, p: Player) -> bool {
    &&& ev.slots@.len() == 6
    &&& forall|k: int| 0 <= k < 6 ==> ev.slots@[k] == spec_first_pit(p) + k
    &&& ev.store == spec_store(p)
}

/// Empties the regular pits of `player` into `player`'s store. Returns the
/// number of stones moved and the record of the sweep.
pub fn capture_side(counts: &mut Vec<u32>, player: Player) -> (r: (u32, CaptureEvent))
    requires
        counts_wf(old(counts)@),
    ensures
        counts_wf(final(counts)@),
        r.0 == side_sum(model(old(counts)@), player),
        model(final(counts)@) == swept(model(old(counts)@), player),
        total(model(final(counts)@)) == total(model(old(counts)@)),
        is_sweep_record(r.1, player),
{
    let ghost c0 = model(counts@);
    let range = Board::get_slots(player);
    let first = range.start;
    let store = Board::get_store(player);
    let mut slots: Vec<usize> = Vec::new();
    let mut sum: u32 = 0;
    let mut i: usize = first;
    while i < store
        invariant
            first == spec_first_pit(player),
            store == spec_store(player),
            first <= i <= store,
            counts@.len() == c0.len(),
            c0.len() == 14,
            total(c0) <= u32::MAX,
            sum == total(c0.subrange(first as int, i as int)),
            total(model(counts@)) + sum == total(c0),
            forall|j: int|
                0 <= j < 14 ==> #[trigger] model(counts@)[j] == if first <= j < i {
                    0
                } else {
                    c0[j]
                },
            slots@.len() == i - first,
            forall|k: int| 0 <= k < i - first ==> slots@[k] == first + k,
        decreases store - i,
    {
        let ghost before = model(counts@);
        let v = counts[i];
        proof {
            lemma_count_le_total(before, i as int);
            assert(c0.subrange(first as int, i + 1).drop_last() =~= c0.subrange(
                first as int,
                i as int,
            ));
            lemma_model_update(counts@, i as int, 0);
            lemma_total_update(before, i as int, 0);
        }
        sum = sum + v;
        counts.set(i, 0);
        slots.push(i);
        i = i + 1;
    }
    let ghost before = model(counts@);
    proof {
        lemma_count_le_total(before, store as int);
    }
    let stored = counts[store];
    proof {
        lemma_model_update(counts@, store as int, (stored + sum) as u32);
        lemma_total_update(before, store as int, (stored + sum) as nat);
    }
    counts.set(store, stored + sum);
    proof {
        assert(model(counts@) =~= swept(c0, player));
    }
    (sum, CaptureEvent { slots, store })
}

/// Checks whether the game is over. If neither side's regular pits are all
/// empty, nothing happens and `None` is returned. Otherwise, in Capture mode,
/// the side that still holds stones is swept into its own store; the winner
/// is the player with more stones in their store, `None` on a tie.
pub fn check_game_over(board: &mut Board, game_mode: GameMode) -> (r: Option<GameOverEvent>)
    requires
        old(board).wf(),
    ensures
        final(board).wf(),
        total(final(board).view()) == total(old(board).view()),
        r is Some <==> game_is_over(old(board).view()),
        r is None ==> final(board).view() == old(board).view(),
        r matches Some(ev) ==> {
            let c = final_board(old(board).view(), game_mode);
            &&& final(board).view() == c
            &&& ev.winner.0 == winner_of(c[STORE_1 as int], c[STORE_2 as int])
            &&& ev.sweep is Some <==> sweep_side(old(board).view(), game_mode) is Some
            &&& (ev.sweep matches Some(s) ==> is_sweep_record(
                s,
                sweep_side(old(board).view(), game_mode)->Some_0,
            ))
        },
{
    let ghost c0 = board.view();
    let mut empty_one = true;
    let mut empty_two = true;
    let mut i: usize = 0;
    while i < Board::LENGTH
        invariant
            board.wf(),
            i <= 14,
            board.view() == c0,
            empty_one <==> forall|j: int| 0 <= j < i && j < STORE_1 ==> c0[j] == 0,
            empty_two <==> forall|j: int| STORE_1 < j < i && j < STORE_2 ==> c0[j] == 0,
        decreases 14 - i,
    {
        if !Board::is_store(i) && board.counts[i] > 0 {
            match Board::owner(i) {
                Player::One => {
                    empty_one = false;
                },
                Player::Two => {
                    empty_two = false;
                },
            }
        }
        proof {
            if board.counts@[i as int] > 0 {
                assert(c0[i as int] > 0);
            }
        }
        i = i + 1;
    }
    if !empty_one && !empty_two {
        return None;
    }
    let mut sweep: Option<CaptureEvent> = None;
    if game_mode == GameMode::Capture {
        if !empty_one {
            let (_, ev) = capture_side(&mut board.counts, Player::One);
            sweep = Some(ev);
        } else if !empty_two {
            let (_, ev) = capture_side(&mut board.counts, Player::Two);
            sweep = Some(ev);
        }
    }
    let score_one = board.counts[Board::STORE_1];
    let score_two = board.counts[Board::STORE_2];
    let winner = if score_one > score_two {
        Some(Player::One)
    } else if score_one < score_two {
        Some(Player::Two)
    } else {
        None
    };
    Some(GameOverEvent { winner: Winner(winner), sweep })
}

} // verus!
