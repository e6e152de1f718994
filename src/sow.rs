use crate::board::{
    counts_wf, lemma_count_le_total, lemma_model_update, lemma_total_update, model, spec_store,
    total, Board, LENGTH,
};
use crate::player::Player;
use vstd::arithmetic::div_mod::lemma_add_mod_noop;
use vstd::prelude::*;

verus! {

/// The pit after `i` on the ring when `p` sows: the opponent's store is
/// passed over.
pub open spec fn next_pit(i: int, p: Player) -> int {
    let j = (i + 1) % (LENGTH as int);
    if j == spec_store(p.other()) {
        (j + 1) % (LENGTH as int)
    } else {
        j
    }
}

/// The pit that receives the `k`-th stone when `p` sows from `origin`
/// (the origin itself for `k == 0`).
pub open spec fn sow_pos(origin: int, k: nat, p: Player) -> int
    decreases k,
{
    if k == 0 {
        origin
    } else {
        next_pit(sow_pos(origin, (k - 1) as nat, p), p)
    }
}

/// How many of the first `n` stones sown by `p` from `origin` land in pit `i`.
pub open spec fn deposits(origin: int, p: Player, n: nat, i: int) -> nat
    decreases n,
{
    if n == 0 {
        0
    } else {
        deposits(origin, p, (n - 1) as nat, i) + if sow_pos(origin, n, p) == i {
            1nat
        } else {
            0nat
        }
    }
}

/// The board after `p` picks up every stone of `origin` and has sown the
/// first `k` of them.
pub open spec fn sown_after(c: Seq<nat>, origin: int, p: Player, k: nat) -> Seq<nat> {
    Seq::new(
        LENGTH as nat,
        |i: int| (if i == origin { 0 } else { c[i] }) + deposits(origin, p, k, i),
    )
}

/// The board after `p` picks up every stone of `origin` and sows them.
pub open spec fn sown(c: Seq<nat>, origin: int, p: Player) -> Seq<nat> {
    sown_after(c, origin, p, c[origin])
}

/// Each sown stone adds one to the total of the board in hand.
pub proof fn lemma_sown_after_total(c: Seq<nat>, origin: int, p: Player, k: nat)
    requires
        c.len() == LENGTH,
        0 <= origin < LENGTH,
    ensures
        total(sown_after(c, origin, p, k)) == total(c) - c[origin] + k,
    decreases k,
{
    if k == 0 {
        assert(sown_after(c, origin, p, 0) =~= c.update(origin, 0));
        lemma_total_update(c, origin, 0);
    } else {
        let prev = sown_after(c, origin, p, (k - 1) as nat);
        let pos = sow_pos(origin, k, p);
        lemma_sown_after_total(c, origin, p, (k - 1) as nat);
        lemma_sow_pos_range(origin, k, p);
        assert(sown_after(c, origin, p, k) =~= prev.update(pos, prev[pos] + 1));
        lemma_total_update(prev, pos, prev[pos] + 1);
    }
}

/// Sowing keeps the number of stones on the board.
pub proof fn lemma_sown_total(c: Seq<nat>, origin: int, p: Player)
    requires
        c.len() == LENGTH,
        0 <= origin < LENGTH,
    ensures
        total(sown(c, origin, p)) == total(c),
        sown(c, origin, p).len() == LENGTH,
{
    lemma_sown_after_total(c, origin, p, c[origin]);
}

/// The pits touched by sowing `n` stones from `origin`: the origin, then each
/// pit that received a stone, in order.
pub open spec fn sow_trace(origin: int, p: Player, n: nat) -> Seq<int> {
    Seq::new(n + 1, |k: int| sow_pos(origin, k as nat, p))
}

/// A sequence of pit indices as integers.
pub open spec fn trace_view(v: Seq<usize>) -> Seq<int> {
    v.map_values(|x: usize| x as int)
}

/// Every pit reached while sowing is on the board.
pub proof fn lemma_sow_pos_range(origin: int, k: nat, p: Player)
    requires
        0 <= origin < LENGTH,
    ensures
        0 <= sow_pos(origin, k, p) < LENGTH,
    decreases k,
{
    if k > 0 {
        lemma_sow_pos_range(origin, (k - 1) as nat, p);
    }
}

/// Sowing never drops a stone into the store of the sower's opponent.
pub proof fn lemma_opponent_store_skipped(origin: int, p: Player, n: nat)
    requires
        0 <= origin < LENGTH,
    ensures
        deposits(origin, p, n, spec_store(p.other())) == 0,
        forall|k: nat| 1 <= k <= n ==> sow_pos(origin, k, p) != spec_store(p.other()),
    decreases n,
{
    if n > 0 {
        lemma_opponent_store_skipped(origin, p, (n - 1) as nat);
        lemma_sow_pos_range(origin, (n - 1) as nat, p);
        assert forall|k: nat| 1 <= k <= n implies sow_pos(origin, k, p) != spec_store(
            p.other(),
        ) by {
            if k == n {
                lemma_sow_pos_range(origin, (k - 1) as nat, p);
            }
        }
    }
}

/// The place of pit `i` on the thirteen-pit lap that `p` sows around,
/// counted from the pit after the opponent's store.
pub open spec fn lap_rank(i: int, p: Player) -> int {
    (i - spec_store(p.other()) - 1 + LENGTH) % (LENGTH as int)
}

/// The pit at place `q` of the lap that `p` sows around.
pub open spec fn lap_pit(q: int, p: Player) -> int {
    (spec_store(p.other()) + 1 + q) % (LENGTH as int)
}

/// The pit reached `k` stones after `origin` is `k` places further on the lap.
pub proof fn lemma_sow_pos_lap(origin: int, k: nat, p: Player)
    requires
        0 <= origin < LENGTH,
        origin != spec_store(p.other()),
    ensures
        sow_pos(origin, k, p) == lap_pit((lap_rank(origin, p) + k) % 13, p),
    decreases k,
{
    lemma_lap_rank_pit(origin, p);
    if k > 0 {
        lemma_sow_pos_lap(origin, (k - 1) as nat, p);
        let a = lap_rank(origin, p) + k - 1;
        lemma_add_mod_noop(a, 1, 13);
        lemma_next_lap(a % 13, p);
    }
}

/// Ranks and pits of the lap correspond one to one.
pub proof fn lemma_lap_rank_pit(i: int, p: Player)
    requires
        0 <= i < LENGTH,
        i != spec_store(p.other()),
    ensures
        0 <= lap_rank(i, p) < 13,
        lap_pit(lap_rank(i, p), p) == i,
        forall|q: int| 0 <= q < 13 && lap_pit(q, p) == i ==> q == lap_rank(i, p),
{
}

/// One step of sowing moves one place on the lap.
pub proof fn lemma_next_lap(q: int, p: Player)
    requires
        0 <= q < 13,
    ensures
        next_pit(lap_pit(q, p), p) == lap_pit((q + 1) % 13, p),
{
}

/// Thirteen stones sown from a pit go once around the lap: each pit but the
/// opponent's store receives exactly one, the opponent's store is passed
/// over, and the last stone lands back in the origin.
pub proof fn lemma_full_lap(origin: int, p: Player)
    requires
        0 <= origin < LENGTH,
        origin != spec_store(p.other()),
    ensures
        sow_pos(origin, 13, p) == origin,
        forall|i: int|
            0 <= i < LENGTH ==> deposits(origin, p, 13, i) == if i == spec_store(p.other()) {
                0nat
            } else {
                1nat
            },
{
    lemma_sow_pos_lap(origin, 13, p);
    assert forall|i: int| 0 <= i < LENGTH implies deposits(origin, p, 13, i) == if i
        == spec_store(p.other()) {
        0nat
    } else {
        1nat
    } by {
        if i == spec_store(p.other()) {
            lemma_opponent_store_skipped(origin, p, 13);
        } else {
            lemma_lap_deposits(origin, p, 13, i);
        }
    }
}

/// The number of the stone, among the first thirteen sown from `origin`,
/// that lands in pit `i`.
pub open spec fn lap_hit(origin: int, p: Player, i: int) -> int {
    (lap_rank(i, p) - lap_rank(origin, p) + 12) % 13 + 1
}

/// Within one lap each pit other than the opponent's store is reached once,
/// by stone number `lap_hit`.
pub proof fn lemma_lap_deposits(origin: int, p: Player, n: nat, i: int)
    requires
        0 <= origin < LENGTH,
        origin != spec_store(p.other()),
        0 <= i < LENGTH,
        i != spec_store(p.other()),
        n <= 13,
    ensures
        deposits(origin, p, n, i) == if lap_hit(origin, p, i) <= n {
            1nat
        } else {
            0nat
        },
    decreases n,
{
    if n > 0 {
        lemma_lap_deposits(origin, p, (n - 1) as nat, i);
        lemma_sow_pos_lap(origin, n, p);
        let r0 = lap_rank(origin, p);
        let ri = lap_rank(i, p);
        lemma_lap_rank_pit(origin, p);
        lemma_lap_rank_pit(i, p);
        assert(0 <= (r0 + n) % 13 < 13);
        assert(sow_pos(origin, n, p) == i <==> (r0 + n) % 13 == ri);
        lemma_lap_hit(r0, ri, n as int);
    }
}

/// Stone number `n` of a lap reaches place `ri` exactly when `n` is the
/// distance from `r0` to `ri` around the lap.
pub proof fn lemma_lap_hit(r0: int, ri: int, n: int)
    requires
        0 <= r0 < 13,
        0 <= ri < 13,
        1 <= n <= 13,
    ensures
        (r0 + n) % 13 == ri <==> n == (ri - r0 + 12) % 13 + 1,
{
}

/// How many steps forward from `i` the store of `p` lies.
pub open spec fn dist_to_store(i: int, p: Player) -> nat {
    ((spec_store(p) - i + LENGTH) % (LENGTH as int)) as nat
}

/// One step of sowing that does not start in `p`'s own store comes closer
/// to that store.
pub proof fn lemma_next_pit_closer(i: int, p: Player)
    requires
        0 <= i < LENGTH,
        i != spec_store(p),
    ensures
        dist_to_store(next_pit(i, p), p) < dist_to_store(i, p),
{
}

/// A sowing pass that puts no stone in the sower's own store ends closer to
/// that store than it started, by at least one pit per stone.
pub proof fn lemma_sow_progress(origin: int, p: Player, n: nat)
    requires
        0 <= origin < LENGTH,
        origin != spec_store(p),
        deposits(origin, p, n, spec_store(p)) == 0,
    ensures
        dist_to_store(sow_pos(origin, n, p), p) + n <= dist_to_store(origin, p),
        n > 0 ==> sow_pos(origin, n, p) != spec_store(p),
    decreases n,
{
    if n > 0 {
        lemma_sow_progress(origin, p, (n - 1) as nat);
        lemma_sow_pos_range(origin, (n - 1) as nat, p);
        lemma_next_pit_closer(sow_pos(origin, (n - 1) as nat, p), p);
    }
}

/// The pits touched by one sowing pass, origin first.
pub struct MoveEvent(pub Vec<usize>);

/// Picks up all stones of `origin` and sows them one by one into the
/// following pits, passing over the store of `player`'s opponent. Returns the
/// pit where the last stone landed and the trace of touched pits.
pub fn sow(counts: &mut Vec<u32>, origin: usize, player: Player) -> (r: (usize, MoveEvent))
    requires
        counts_wf(old(counts)@),
        origin < LENGTH,
    ensures
        counts_wf(final(counts)@),
        model(final(counts)@) == sown(model(old(counts)@), origin as int, player),
        total(model(final(counts)@)) == total(model(old(counts)@)),
        r.0 as int == sow_pos(origin as int, old(counts)@[origin as int] as nat, player),
        r.0 < LENGTH,
        trace_view(r.1.0@) == sow_trace(origin as int, player, old(counts)@[origin as int] as nat),
{
    let ghost c0 = model(counts@);
    let ghost n = counts@[origin as int] as nat;
    let opponent_store = Board::get_store(player.flip());
    let mut stack = counts[origin];
    proof {
        lemma_model_update(counts@, origin as int, 0);
        lemma_total_update(c0, origin as int, 0);
    }
    counts.set(origin, 0);
    let mut moves: Vec<usize> = Vec::new();
    moves.push(origin);
    let mut index = origin;
    proof {
        assert(trace_view(moves@) =~= sow_trace(origin as int, player, 0));
    }
    while stack > 0
        invariant
            counts@.len() == LENGTH,
            origin < LENGTH,
            index < LENGTH,
            opponent_store == spec_store(player.other()),
            n == c0[origin as int],
            c0.len() == LENGTH,
            total(c0) <= u32::MAX,
            stack <= n,
            index == sow_pos(origin as int, (n - stack) as nat, player),
            forall|i: int|
                0 <= i < LENGTH ==> #[trigger] model(counts@)[i] == (if i == origin {
                    0
                } else {
                    c0[i]
                }) + deposits(origin as int, player, (n - stack) as nat, i),
            total(model(counts@)) + stack == total(c0),
            trace_view(moves@) == sow_trace(origin as int, player, (n - stack) as nat),
        decreases stack,
    {
        let ghost before = model(counts@);
        let ghost before_moves = moves@;
        let ghost k0 = (n - stack) as nat;
        assert(trace_view(before_moves) == sow_trace(origin as int, player, k0));
        assert(before_moves.len() == k0 + 1);
        index = (index + 1) % LENGTH;
        if index == opponent_store {
            index = (index + 1) % LENGTH;
        }
        proof {
            lemma_count_le_total(before, index as int);
        }
        let v = counts[index];
        proof {
            lemma_model_update(counts@, index as int, (v + 1) as u32);
            lemma_total_update(before, index as int, (v + 1) as nat);
        }
        counts.set(index, v + 1);
        stack = stack - 1;
        moves.push(index);
        proof {
            let k = (n - stack) as nat;
            assert(k == k0 + 1);
            assert(moves@.len() == k + 1);
            assert(sow_pos(origin as int, k, player) == index);
            assert forall|i: int| 0 <= i < LENGTH implies #[trigger] model(counts@)[i] == (if i
                == origin {
                0
            } else {
                c0[i]
            }) + deposits(origin as int, player, k, i) by {
                assert(model(counts@)[i] == before[i] + if i == index {
                    1nat
                } else {
                    0nat
                });
            }
            assert(moves@ == before_moves.push(index));
            assert forall|j: int| 0 <= j < k implies #[trigger] trace_view(moves@)[j]
                == sow_trace(origin as int, player, k)[j] by {
                assert(trace_view(before_moves)[j] == sow_trace(origin as int, player, k0)[j]);
            }
            assert(trace_view(moves@) =~= sow_trace(origin as int, player, k));
        }
    }
    proof {
        assert(model(counts@) =~= sown(c0, origin as int, player));
    }
    (index, MoveEvent(moves))
}

} // verus!
