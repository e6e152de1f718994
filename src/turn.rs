use crate::board::{
    counts_wf, in_pits, lemma_count_le_total, lemma_model_update, lemma_total_update, model,
    spec_opposite, spec_owner, spec_store, total, Board, LENGTH,
};
use crate::player::{CurrentPlayer, GameMode, Player};
use crate::sow::{
    deposits, dist_to_store, lemma_opponent_store_skipped, lemma_sow_pos_range,
    lemma_sow_progress, lemma_sown_total, sow, sow_pos, sow_trace, sown, trace_view, MoveEvent,
};
use vstd::prelude::*;

verus! {

/// What happens after a sow.
#[derive(Debug, Clone, Copy, PartialEq, Eq, Structural)]
pub enum MoveEndAction {
    /// Sow again from the landing pit, same player.
    Repeat,
    /// The turn is over and the same player moves again.
    Continue,
    /// The turn is over and passes to the other player.
    End,
}

/// Pits emptied into a store: the two pits of a capture, or a whole side at
/// the end of the game.
pub struct CaptureEvent {
    pub slots: Vec<usize>,
    pub store: usize,
}

/// Whether `p`, having landed on `index`, captures: in Capture mode, on a
/// regular pit of `p` that now holds exactly one stone, facing a non-empty pit.
pub open spec fn captures(c: Seq<nat>, index: int, mode: GameMode, p: Player) -> bool {
    &&& index != spec_store(p)
    &&& mode == GameMode::Capture
    &&& c[index] == 1
    &&& spec_owner(index) == p
    &&& c[spec_opposite(index)] > 0
}

/// The decision taken after `p` lands on `index`.
pub open spec fn end_action(c: Seq<nat>, index: int, mode: GameMode, p: Player) -> MoveEndAction {
    if index == spec_store(p) {
        MoveEndAction::Continue
    } else if captures(c, index, mode, p) {
        MoveEndAction::Continue
    } else if mode == GameMode::Avalanche && c[index] > 1 {
        MoveEndAction::Repeat
    } else {
        MoveEndAction::End
    }
}

/// The board after the decision: a capture moves the landing stone and the
/// facing pit's stones into `p`'s store; otherwise nothing changes.
pub open spec fn after_end(c: Seq<nat>, index: int, mode: GameMode, p: Player) -> Seq<nat> {
    if captures(c, index, mode, p) {
        let o = spec_opposite(index);
        let s = spec_store(p);
        c.update(s, c[s] + c[o] + 1).update(o, 0).update(index, 0)
    } else {
        c
    }
}

/// The record of a capture made by `p` on `index`.
pub open spec fn is_capture_record(ev: CaptureEvent, index: int, p: Player) -> bool {
    &&& ev.slots@ == seq![index as usize, spec_opposite(index) as usize]
    &&& ev.store == spec_store(p)
}

/// Decides, after `current_player` has sown and landed on `index`, whether
/// to sow again, keep the turn or pass it, executing a capture if one is due.
pub fn handle_move_end(
    index: usize,
    game_mode: GameMode,
    current_player: Player,
    counts: &mut Vec<u32>,
) -> (r: (MoveEndAction, Option<CaptureEvent>))
    requires
        counts_wf(old(counts)@),
        index < LENGTH,
    ensures
        counts_wf(final(counts)@),
        r.0 == end_action(model(old(counts)@), index as int, game_mode, current_player),
        model(final(counts)@) == after_end(
            model(old(counts)@),
            index as int,
            game_mode,
            current_player,
        ),
        total(model(final(counts)@)) == total(model(old(counts)@)),
        r.1 is Some <==> captures(model(old(counts)@), index as int, game_mode, current_player),
        r.1 matches Some(ev) ==> is_capture_record(ev, index as int, current_player),
{
    let ghost c0 = model(counts@);
    if index == Board::get_store(current_player) {
        return (MoveEndAction::Continue, None);
    }
    match game_mode {
        GameMode::Capture => {
            if counts[index] == 1 && Board::owner(index) == current_player {
                let opposite_index = Board::opposite(index);
                if counts[opposite_index] > 0 {
                    let store = Board::get_store(current_player);
                    let taken = counts[opposite_index];
                    proof {
                        lemma_total_update(c0, index as int, 0);
                        let c1 = c0.update(index as int, 0);
                        lemma_total_update(c1, opposite_index as int, 0);
                        let c2 = c1.update(opposite_index as int, 0);
                        lemma_count_le_total(c2, store as int);
                    }
                    let stored = counts[store];
                    let swept = stored + taken + 1;
                    proof {
                        lemma_model_update(counts@, store as int, swept);
                        lemma_total_update(c0, store as int, swept as nat);
                    }
                    counts.set(store, swept);
                    let ghost c1 = model(counts@);
                    proof {
                        lemma_model_update(counts@, opposite_index as int, 0);
                        lemma_total_update(c1, opposite_index as int, 0);
                    }
                    counts.set(opposite_index, 0);
                    let ghost c2 = model(counts@);
                    proof {
                        lemma_model_update(counts@, index as int, 0);
                        lemma_total_update(c2, index as int, 0);
                    }
                    counts.set(index, 0);
                    let mut slots: Vec<usize> = Vec::new();
                    slots.push(index);
                    slots.push(opposite_index);
                    proof {
                        assert(slots@ =~= seq![index, opposite_index]);
                    }
                    return (MoveEndAction::Continue, Some(CaptureEvent { slots, store }));
                }
            }
        },
        GameMode::Avalanche => {
            if counts[index] > 1 {
                return (MoveEndAction::Repeat, None);
            }
        },
    }
    (MoveEndAction::End, None)
}

/// The state of a turn being resolved: the board, the pit the next sow
/// starts from (the last landing pit once the turn is over), the traces so
/// far, the pit of a capture if one was made, and the last decision.
pub struct TurnState {
    pub counts: Seq<nat>,
    pub index: int,
    pub traces: Seq<Seq<int>>,
    pub capture: Option<int>,
    pub action: MoveEndAction,
}

/// One sow and its decision; a finished turn stays as it is.
pub open spec fn turn_step(t: TurnState, mode: GameMode, p: Player) -> TurnState {
    if t.action != MoveEndAction::Repeat {
        t
    } else {
        let c = sown(t.counts, t.index, p);
        let land = sow_pos(t.index, t.counts[t.index], p);
        TurnState {
            counts: after_end(c, land, mode, p),
            index: land,
            traces: t.traces.push(sow_trace(t.index, p, t.counts[t.index])),
            capture: if captures(c, land, mode, p) {
                Some(land)
            } else {
                None
            },
            action: end_action(c, land, mode, p),
        }
    }
}

/// The turn of `p` from `origin` on board `c` after `n` steps.
pub open spec fn turn_after(
    c: Seq<nat>,
    origin: int,
    mode: GameMode,
    p: Player,
    n: nat,
) -> TurnState
    decreases n,
{
    if n == 0 {
        TurnState {
            counts: c,
            index: origin,
            traces: seq![],
            capture: None,
            action: MoveEndAction::Repeat,
        }
    } else {
        turn_step(turn_after(c, origin, mode, p, (n - 1) as nat), mode, p)
    }
}

/// Whether `p` may start a turn from pit `index`: one of `p`'s own regular
/// pits, holding at least one stone.
pub open spec fn valid_activation(c: Seq<nat>, index: int, p: Player) -> bool {
    in_pits(index, p) && c[index] > 0
}

/// The traces of a list of move events.
pub open spec fn traces_view(moves: Seq<MoveEvent>) -> Seq<Seq<int>> {
    moves.map_values(|m: MoveEvent| trace_view(m.0@))
}

/// Whether a returned capture record agrees with a captured pit.
pub open spec fn capture_agrees(ev: Option<CaptureEvent>, cap: Option<int>, p: Player) -> bool {
    match (ev, cap) {
        (None, None) => true,
        (Some(e), Some(i)) => is_capture_record(e, i, p),
        _ => false,
    }
}

/// The decision after a sow keeps the number of stones on the board.
pub proof fn lemma_after_end_total(c: Seq<nat>, index: int, mode: GameMode, p: Player)
    requires
        c.len() == LENGTH,
        0 <= index < LENGTH,
    ensures
        total(after_end(c, index, mode, p)) == total(c),
        after_end(c, index, mode, p).len() == LENGTH,
{
    if captures(c, index, mode, p) {
        let o = spec_opposite(index);
        let s = spec_store(p);
        let c1 = c.update(s, c[s] + c[o] + 1);
        let c2 = c1.update(o, 0);
        lemma_total_update(c, s, c[s] + c[o] + 1);
        lemma_total_update(c1, o, 0);
        lemma_total_update(c2, index, 0);
    }
}

/// However many sows a turn takes, it never creates or destroys stones: the
/// board holds as many stones after every step as before the turn.
pub proof fn lemma_turn_conserves_stones(
    c: Seq<nat>,
    origin: int,
    mode: GameMode,
    p: Player,
    n: nat,
)
    requires
        c.len() == LENGTH,
        0 <= origin < LENGTH,
    ensures
        total(turn_after(c, origin, mode, p, n).counts) == total(c),
        turn_after(c, origin, mode, p, n).counts.len() == LENGTH,
        0 <= turn_after(c, origin, mode, p, n).index < LENGTH,
    decreases n,
{
    if n > 0 {
        let t = turn_after(c, origin, mode, p, (n - 1) as nat);
        lemma_turn_conserves_stones(c, origin, mode, p, (n - 1) as nat);
        if t.action == MoveEndAction::Repeat {
            let c1 = sown(t.counts, t.index, p);
            let land = sow_pos(t.index, t.counts[t.index], p);
            lemma_sown_total(t.counts, t.index, p);
            lemma_sow_pos_range(t.index, t.counts[t.index], p);
            lemma_after_end_total(c1, land, mode, p);
        }
    }
}

/// A turn never puts a stone into the opponent's store: sowing passes over
/// it and a capture fills the mover's own store.
pub proof fn lemma_turn_keeps_opponent_store(
    c: Seq<nat>,
    origin: int,
    mode: GameMode,
    p: Player,
    n: nat,
)
    requires
        c.len() == LENGTH,
        0 <= origin < LENGTH,
        origin != spec_store(p.other()),
    ensures
        turn_after(c, origin, mode, p, n).counts[spec_store(p.other())] == c[spec_store(p.other())],
        turn_after(c, origin, mode, p, n).index != spec_store(p.other()),
    decreases n,
{
    if n > 0 {
        let t = turn_after(c, origin, mode, p, (n - 1) as nat);
        lemma_turn_keeps_opponent_store(c, origin, mode, p, (n - 1) as nat);
        lemma_turn_conserves_stones(c, origin, mode, p, (n - 1) as nat);
        if t.action == MoveEndAction::Repeat {
            let k = t.counts[t.index];
            lemma_opponent_store_skipped(t.index, p, k);
            lemma_sow_pos_range(t.index, k, p);
        }
    }
}

/// A turn still in progress after `n` steps has made exactly `n` sows.
pub proof fn lemma_turn_trace_count(c: Seq<nat>, origin: int, mode: GameMode, p: Player, n: nat)
    requires
        turn_after(c, origin, mode, p, n).action == MoveEndAction::Repeat,
    ensures
        turn_after(c, origin, mode, p, n).traces.len() == n,
    decreases n,
{
    if n > 0 {
        lemma_turn_trace_count(c, origin, mode, p, (n - 1) as nat);
    }
}

/// A repeat happens only in Avalanche mode, when the landing pit holds two
/// or more stones, and the next sow starts from that landing pit: the first
/// pit of the next trace is the last pit of the previous one, and the board
/// is left as the sow left it.
pub proof fn lemma_repeat_sows_from_landing(
    c: Seq<nat>,
    origin: int,
    mode: GameMode,
    p: Player,
    n: nat,
)
    requires
        n >= 1,
        turn_after(c, origin, mode, p, n).action == MoveEndAction::Repeat,
    ensures
        ({
            let t = turn_after(c, origin, mode, p, n);
            let prev = turn_after(c, origin, mode, p, (n - 1) as nat);
            &&& mode == GameMode::Avalanche
            &&& t.counts == sown(prev.counts, prev.index, p)
            &&& t.counts[t.index] > 1
            &&& t.traces[n - 1].last() == t.index
            &&& turn_after(c, origin, mode, p, n + 1).traces[n as int][0] == t.index
        }),
{
    lemma_turn_trace_count(c, origin, mode, p, n);
    lemma_turn_trace_count(c, origin, mode, p, (n - 1) as nat);
}

/// Once a turn is over it stays over with the same outcome, so the number of
/// steps that resolves a turn does not matter beyond the first that ends it.
pub proof fn lemma_turn_settles(
    c: Seq<nat>,
    origin: int,
    mode: GameMode,
    p: Player,
    n: nat,
    m: nat,
)
    requires
        turn_after(c, origin, mode, p, n).action != MoveEndAction::Repeat,
        n <= m,
    ensures
        turn_after(c, origin, mode, p, m) == turn_after(c, origin, mode, p, n),
    decreases m - n,
{
    if n < m {
        lemma_turn_settles(c, origin, mode, p, n, (m - 1) as nat);
    }
}

/// The result of a resolved turn.
pub struct MoveOutcome {
    /// The trace of each sow, in order.
    pub moves: Vec<MoveEvent>,
    /// The capture that ended the turn, if any.
    pub capture: Option<CaptureEvent>,
    /// How the turn ended: `Continue` or `End`.
    pub action: MoveEndAction,
}

/// Whether `r`, `after` and `next` are what resolving the turn of `p` from
/// `origin` on `c` gives after `n` steps, that turn being over by then.
pub open spec fn resolved_in(
    c: Seq<nat>,
    origin: int,
    mode: GameMode,
    p: Player,
    n: nat,
    r: MoveOutcome,
    after: Seq<nat>,
    next: Player,
) -> bool {
    let t = turn_after(c, origin, mode, p, n);
    &&& t.action != MoveEndAction::Repeat
    &&& after == t.counts
    &&& traces_view(r.moves@) == t.traces
    &&& capture_agrees(r.capture, t.capture, p)
    &&& r.action == t.action
    &&& next == if t.action == MoveEndAction::End {
        p.other()
    } else {
        p
    }
}

/// Resolves the activation of pit `index` by the current player: sows, then
/// sows again from the landing pit for as long as the decision is `Repeat`,
/// writes the counts back and passes the turn on `End`. An activation of a
/// pit that is not a non-empty regular pit of the current player is ignored.
pub fn handle_move(
    board: &mut Board,
    game_mode: GameMode,
    current_player: &mut CurrentPlayer,
    index: usize,
) -> (r: Option<MoveOutcome>)
    requires
        old(board).wf(),
        index < LENGTH,
    ensures
        final(board).wf(),
        total(final(board).view()) == total(old(board).view()),
        final(board).view()[spec_store(old(current_player).0.other())]
            == old(board).view()[spec_store(old(current_player).0.other())],
        !valid_activation(old(board).view(), index as int, old(current_player).0) ==> {
            &&& r is None
            &&& final(board).view() == old(board).view()
            &&& *final(current_player) == *old(current_player)
        },
        valid_activation(old(board).view(), index as int, old(current_player).0) ==> {
            &&& r is Some
            &&& exists|n: nat|
                resolved_in(
                    old(board).view(),
                    index as int,
                    game_mode,
                    old(current_player).0,
                    n,
                    r->Some_0,
                    final(board).view(),
                    final(current_player).0,
                )
        },
{
    let player = current_player.0;
    let first = Board::get_slots(player).start;
    let store = Board::get_store(player);
    if index < first || index >= store || board.counts[index] == 0 {
        return None;
    }
    let ghost c0 = board.view();
    let ghost mut steps: nat = 0;
    let ghost mut cap: Option<int> = None;
    let mut origin = index;
    let mut moves: Vec<MoveEvent> = Vec::new();
    let mut capture: Option<CaptureEvent> = None;
    let mut action = MoveEndAction::Repeat;
    proof {
        assert(traces_view(moves@) =~= seq![]);
    }
    loop
        invariant_except_break
            action == MoveEndAction::Repeat,
            origin != store,
            board.counts@[origin as int] > 0,
            *current_player == *old(current_player),
        invariant
            board.wf(),
            total(board.view()) == total(c0),
            player == old(current_player).0,
            store == spec_store(player),
            origin < LENGTH,
            turn_after(c0, index as int, game_mode, player, steps) == (TurnState {
                counts: board.view(),
                index: origin as int,
                traces: traces_view(moves@),
                capture: cap,
                action,
            }),
            capture_agrees(capture, cap, player),
        ensures
            action != MoveEndAction::Repeat,
            current_player.0 == if action == MoveEndAction::End {
                player.other()
            } else {
                player
            },
        decreases
            (total(c0) - board.view()[store as int]),
            dist_to_store(origin as int, player),
    {
        let ghost before = board.view();
        let ghost before_moves = moves@;
        let ghost n = before[origin as int];
        proof {
            lemma_count_le_total(before, store as int);
        }
        let (landing, ev) = sow(&mut board.counts, origin, player);
        let ghost mid = board.view();
        moves.push(ev);
        let (next_action, captured) = handle_move_end(
            landing,
            game_mode,
            player,
            &mut board.counts,
        );
        proof {
            assert(traces_view(moves@) =~= traces_view(before_moves).push(
                sow_trace(origin as int, player, n),
            ));
            cap = if captures(mid, landing as int, game_mode, player) {
                Some(landing as int)
            } else {
                None
            };
            steps = steps + 1;
        }
        capture = captured;
        action = next_action;
        proof {
            lemma_count_le_total(board.view(), store as int);
            if action == MoveEndAction::Repeat {
                assert(mid[store as int] == before[store as int] + deposits(
                    origin as int,
                    player,
                    n,
                    store as int,
                ));
                if deposits(origin as int, player, n, store as int) == 0 {
                    lemma_sow_progress(origin as int, player, n);
                }
            }
        }
        origin = landing;
        match action {
            MoveEndAction::Repeat => {},
            MoveEndAction::Continue => {
                break;
            },
            MoveEndAction::End => {
                current_player.flip();
                break;
            },
        }
    }
    let r = Some(MoveOutcome { moves, capture, action });
    proof {
        lemma_turn_keeps_opponent_store(c0, index as int, game_mode, player, steps);
        assert(resolved_in(c0, index as int, game_mode, player, steps, r->Some_0, board.view(),
            current_player.0));
    }
    r
}

} // verus!
