use crate::board::{in_pits, side_empty, spec_first_pit, spec_store, Board};
use crate::player::{CurrentPlayer, Player};
use crate::turn::valid_activation;
use rand::Rng;
use vstd::prelude::*;

verus! {

/// The name of the computer's profile.
pub const AI_NAME: &'static str = "CPU";

/// The seat the computer plays, if any.
#[derive(Debug, Clone, Copy, PartialEq, Eq, Structural)]
pub struct AiPlayer(pub Option<Player>);

impl Default for AiPlayer {
    fn default() -> (r: AiPlayer)
        ensures
            r.0 is None,
    {
        AiPlayer(None)
    }
}

/// Whether the computer moves next: it plays a seat and that seat has the turn.
pub fn ai_to_move(ai_player: &AiPlayer, current_player: &CurrentPlayer) -> (r: bool)
    ensures
        r == (ai_player.0 == Some(current_player.0)),
{
    match ai_player.0 {
        Some(p) => p == current_player.0,
        None => false,
    }
}

/// Relies on `rand::thread_rng` and `Rng::gen_range`: a number drawn from
/// `0..n`. `gen_range` panics on an empty range, so `n` must be positive.
#[verifier::external_body]
fn random_below(n: usize) -> (r: usize)
    requires
        n > 0,
    ensures
        r < n,
{
    rand::thread_rng().gen_range(0..n)
}

/// Picks at random one of the non-empty regular pits of `player`, or `None`
/// when they are all empty.
pub fn ai_choice(board: &Board, player: Player) -> (r: Option<usize>)
    requires
        board.wf(),
    ensures
        r is Some <==> !side_empty(board.view(), player),
        r matches Some(i) ==> valid_activation(board.view(), i as int, player),
{
    let candidates = playable_pits(board, player);
    if candidates.len() == 0 {
        None
    } else {
        let k = random_below(candidates.len());
        Some(candidates[k])
    }
}

/// The non-empty regular pits of `player`, in increasing order.
pub fn playable_pits(board: &Board, player: Player) -> (r: Vec<usize>)
    requires
        board.wf(),
    ensures
        forall|k: int|
            0 <= k < r@.len() ==> valid_activation(board.view(), #[trigger] r@[k] as int, player),
        forall|i: int| valid_activation(board.view(), i, player) ==> r@.contains(i as usize),
        forall|a: int, b: int| 0 <= a < b < r@.len() ==> r@[a] < r@[b],
        r@.len() == 0 <==> side_empty(board.view(), player),
{
    let range = Board::get_slots(player);
    let end = range.end;
    let mut i = range.start;
    let mut pits: Vec<usize> = Vec::new();
    while i < end
        invariant
            board.wf(),
            range.start == spec_first_pit(player),
            end == spec_store(player),
            range.start <= i <= end,
            end < 14,
            forall|k: int|
                0 <= k < pits@.len() ==> valid_activation(
                    board.view(),
                    #[trigger] pits@[k] as int,
                    player,
                ),
            forall|k: int| 0 <= k < pits@.len() ==> #[trigger] pits@[k] < i,
            forall|j: int|
                range.start <= j < i && valid_activation(board.view(), j, player)
                    ==> pits@.contains(j as usize),
            forall|a: int, b: int| 0 <= a < b < pits@.len() ==> pits@[a] < pits@[b],
        decreases end - i,
    {
        let ghost before = pits@;
        if board.counts[i] > 0 {
            pits.push(i);
            proof {
                assert(pits@[pits@.len() - 1] == i);
                assert forall|j: int|
                    range.start <= j < i + 1 && valid_activation(board.view(), j, player)
                        implies pits@.contains(j as usize) by {
                    if j < i {
                        let w = choose|w: int| 0 <= w < before.len() && before[w] == j as usize;
                        assert(pits@[w] == j as usize);
                    }
                }
            }
        }
        i = i + 1;
    }
    proof {
        if pits@.len() == 0 {
            assert forall|j: int| in_pits(j, player) implies board.view()[j] == 0 by {
                if board.view()[j] > 0 {
                    assert(valid_activation(board.view(), j, player));
                    assert(pits@.contains(j as usize));
                }
            }
        } else {
            assert(valid_activation(board.view(), pits@[0] as int, player));
        }
    }
    pits
}

} // verus!
