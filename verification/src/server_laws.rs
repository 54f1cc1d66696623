//! Invariants of the match server that every operation keeps.

use vstd::prelude::*;
use crate::server::{
    accept_rematch_spec, add_player_spec, create_game_spec, decline_rematch_spec, find_game,
    find_player, game_of, leave_matchmaking_spec, lemma_find_game, lemma_find_player, name_of,
    notify, other_side, queue_without, remove_player_spec, request_rematch_spec, resign_spec,
    set_state_of, start_matchmaking_spec, with_game, with_over, with_player, with_requester,
    with_state, without_game, without_player, GameView, PlayerView, ServerView, StateView,
    handle_move_spec, request_spec,
};
use crate::protocol::ClientMessage;

verus! {

pub open spec fn ids_unique(ps: Seq<PlayerView>) -> bool {
    forall|i: int, j: int| 0 <= i < ps.len() && 0 <= j < ps.len() && i != j ==> #[trigger] ps[i].id != #[trigger] ps[j].id
}

pub open spec fn game_ids_unique(gs: Seq<GameView>) -> bool {
    forall|i: int, j: int| 0 <= i < gs.len() && 0 <= j < gs.len() && i != j ==> #[trigger] gs[i].id != #[trigger] gs[j].id
}

pub open spec fn member(g: GameView, m: Seq<char>) -> bool {
    g.white == m || g.black == m
}

pub open spec fn in_play(st: StateView) -> bool {
    st is InGame || st is GameOver
}

/// The queue holds at most one player; every queued id is a waiting player,
/// and every waiting player is queued.
pub open spec fn queue_ok(s: ServerView) -> bool {
    &&& s.queue.len() <= 1
    &&& forall|k: int|
        0 <= k < s.queue.len() ==> (find_player(s.players, #[trigger] s.queue[k]) matches Some(i)
            && s.players[i].state is InMatchmaking)
    &&& forall|i: int|
        0 <= i < s.players.len() && (#[trigger] s.players[i]).state is InMatchmaking ==> s.queue.contains(
            s.players[i].id,
        )
}

/// Every player of a game is in a game or a finished game.
pub open spec fn members_in_play(s: ServerView) -> bool {
    forall|gi: int, i: int|
        0 <= gi < s.games.len() && 0 <= i < s.players.len() && member(#[trigger] s.games[gi], #[trigger] s.players[i].id)
            ==> in_play(s.players[i].state)
}

/// No player plays in two games.
pub open spec fn one_game_each(gs: Seq<GameView>) -> bool {
    forall|gi: int, gj: int|
        0 <= gi < gs.len() && 0 <= gj < gs.len() && gi != gj ==> !member(#[trigger] gs[gj], (#[trigger] gs[gi]).white)
            && !member(gs[gj], gs[gi].black)
}

/// No player and no game has `id` as a player: an id a new player can take.
pub open spec fn fresh_player_id(s: ServerView, id: Seq<char>) -> bool {
    find_player(s.players, id) is None && forall|gi: int| 0 <= gi < s.games.len() ==> !member(#[trigger] s.games[gi], id)
}

/// The invariant of the server state.
pub open spec fn server_wf(s: ServerView) -> bool {
    &&& ids_unique(s.players)
    &&& game_ids_unique(s.games)
    &&& queue_ok(s)
    &&& members_in_play(s)
    &&& one_game_each(s.games)
}

/// With unique ids, the player with an id is found at its position.
pub proof fn lemma_find_unique(ps: Seq<PlayerView>, i: int)
    requires
        ids_unique(ps),
        0 <= i < ps.len(),
    ensures
        find_player(ps, ps[i].id) == Some(i),
{
    lemma_find_player(ps, ps[i].id);
}

pub proof fn lemma_find_game_unique(gs: Seq<GameView>, i: int)
    requires
        game_ids_unique(gs),
        0 <= i < gs.len(),
    ensures
        find_game(gs, gs[i].id) == Some(i),
{
    lemma_find_game(gs, gs[i].id);
}

/// Setting a state keeps every id in its place, and changes only the
/// state of the player with that id.
pub proof fn lemma_set_state(ps: Seq<PlayerView>, id: Seq<char>, st: StateView)
    ensures
        set_state_of(ps, id, st).len() == ps.len(),
        forall|i: int| 0 <= i < ps.len() ==> #[trigger] set_state_of(ps, id, st)[i].id == ps[i].id,
        forall|i: int| 0 <= i < ps.len() ==> #[trigger] set_state_of(ps, id, st)[i].name == ps[i].name,
        forall|i: int|
            0 <= i < ps.len() && ps[i].id != id ==> #[trigger] set_state_of(ps, id, st)[i].state == ps[i].state,
        forall|i: int|
            0 <= i < ps.len() && ps[i].id == id && ids_unique(ps) ==> #[trigger] set_state_of(ps, id, st)[i].state == st,
        forall|x: Seq<char>| #[trigger] find_player(set_state_of(ps, id, st), x) == find_player(ps, x),
{
    lemma_find_player(ps, id);
    let r = set_state_of(ps, id, st);
    assert forall|x: Seq<char>| #[trigger] find_player(r, x) == find_player(ps, x) by {
        lemma_find_player(ps, x);
        lemma_find_player(r, x);
        assert(r.len() == ps.len());
        assert(forall|i: int| 0 <= i < ps.len() ==> r[i].id == ps[i].id);
        match find_player(ps, x) {
            Some(i) => {
                match find_player(r, x) {
                    Some(j) => {
                        assert(!(j < i));
                        assert(!(i < j));
                    },
                    None => {
                        assert(r[i].id == x);
                    },
                }
            },
            None => {
                match find_player(r, x) {
                    Some(j) => {
                        assert(ps[j].id == x);
                    },
                    None => {},
                }
            },
        }
    }
    assert forall|i: int| 0 <= i < ps.len() && ps[i].id == id && ids_unique(ps) implies #[trigger] r[i].state == st by {
        lemma_find_unique(ps, i);
    }
}

proof fn lemma_queue_without_short(q: Seq<Seq<char>>, id: Seq<char>)
    requires
        q.len() <= 1,
    ensures
        queue_without(q, id) == (if q.len() == 1 && q[0] != id { q } else { Seq::<Seq<char>>::empty() }),
{
    reveal_with_fuel(Seq::filter, 2);
    if q.len() == 1 {
        assert(q.drop_last() =~= Seq::<Seq<char>>::empty());
        if q[0] != id {
            assert(Seq::<Seq<char>>::empty().push(q[0]) =~= q);
        }
    }
}

/// Leaving the queue keeps the server invariant.
pub proof fn lemma_leave_matchmaking_keeps_wf(s: ServerView, pid: Seq<char>)
    requires
        server_wf(s),
    ensures
        server_wf(leave_matchmaking_spec(s, pid)),
{
    let s2 = leave_matchmaking_spec(s, pid);
    lemma_queue_without_short(s.queue, pid);
    lemma_find_player(s.players, pid);
    lemma_set_state(s.players, pid, StateView::Idle);
    let waiting = match find_player(s.players, pid) {
        Some(i) => s.players[i].state is InMatchmaking,
        None => false,
    };
    assert forall|k: int| 0 <= k < s2.queue.len() implies (find_player(s2.players, #[trigger] s2.queue[k]) matches Some(i)
        && s2.players[i].state is InMatchmaking) by {
        assert(s2.queue[k] == s.queue[k]);
        lemma_find_player(s.players, s.queue[k]);
    }
    assert forall|i: int| 0 <= i < s2.players.len() && (#[trigger] s2.players[i]).state is InMatchmaking
        implies s2.queue.contains(s2.players[i].id) by {
        lemma_find_unique(s.players, i);
        if s.players[i].id == pid {
            assert(false);
        }
        assert(s.queue.contains(s.players[i].id));
        assert(s.queue[0] == s.players[i].id);
        assert(s2.queue[0] == s.players[i].id);
    }
    assert forall|gi: int, i: int|
        0 <= gi < s2.games.len() && 0 <= i < s2.players.len() && member(#[trigger] s2.games[gi], #[trigger] s2.players[i].id)
        implies in_play(s2.players[i].state) by {
        assert(member(s.games[gi], s.players[i].id));
        assert(in_play(s.players[i].state));
    }
}

/// Recording a rematch request keeps the server invariant.
pub proof fn lemma_request_rematch_keeps_wf(s: ServerView, pid: Seq<char>, gid: Seq<char>)
    requires
        server_wf(s),
    ensures
        server_wf(request_rematch_spec(s, pid, gid).0),
{
    let s2 = request_rematch_spec(s, pid, gid).0;
    lemma_find_game(s.games, gid);
    assert forall|gi: int, i: int|
        0 <= gi < s2.games.len() && 0 <= i < s2.players.len() && member(#[trigger] s2.games[gi], #[trigger] s2.players[i].id)
        implies in_play(s2.players[i].state) by {
        assert(member(s.games[gi], s.players[i].id));
    }
    assert forall|gi: int, gj: int|
        0 <= gi < s2.games.len() && 0 <= gj < s2.games.len() && gi != gj implies !member(#[trigger] s2.games[gj], (#[trigger] s2.games[gi]).white)
            && !member(s2.games[gj], s2.games[gi].black) by {
        assert(s2.games[gi].white == s.games[gi].white && s2.games[gi].black == s.games[gi].black);
        assert(s2.games[gj].white == s.games[gj].white && s2.games[gj].black == s.games[gj].black);
        assert(!member(s.games[gj], s.games[gi].white));
    }
    assert forall|i: int, j: int| 0 <= i < s2.games.len() && 0 <= j < s2.games.len() && i != j implies #[trigger] s2.games[i].id != #[trigger] s2.games[j].id by {
        assert(s2.games[i].id == s.games[i].id);
        assert(s2.games[j].id == s.games[j].id);
    }
}

/// Changing games without changing any id or player keeps the invariant.
proof fn lemma_same_members(s: ServerView, gs: Seq<GameView>)
    requires
        server_wf(s),
        gs.len() == s.games.len(),
        forall|gi: int|
            0 <= gi < gs.len() ==> (#[trigger] gs[gi]).id == s.games[gi].id && gs[gi].white == s.games[gi].white
                && gs[gi].black == s.games[gi].black,
    ensures
        server_wf(ServerView { players: s.players, queue: s.queue, games: gs }),
{
    let s2 = ServerView { players: s.players, queue: s.queue, games: gs };
    assert forall|gi: int, i: int|
        0 <= gi < s2.games.len() && 0 <= i < s2.players.len() && member(#[trigger] s2.games[gi], #[trigger] s2.players[i].id)
        implies in_play(s2.players[i].state) by {
        assert(member(s.games[gi], s.players[i].id));
    }
    assert forall|gi: int, gj: int|
        0 <= gi < gs.len() && 0 <= gj < gs.len() && gi != gj implies !member(#[trigger] gs[gj], (#[trigger] gs[gi]).white)
            && !member(gs[gj], gs[gi].black) by {
        assert(!member(s.games[gj], s.games[gi].white));
        assert(!member(s.games[gj], s.games[gi].black));
    }
    assert forall|i: int, j: int| 0 <= i < gs.len() && 0 <= j < gs.len() && i != j implies #[trigger] gs[i].id != #[trigger] gs[j].id by {
        assert(s.games[i].id != s.games[j].id);
    }
}

/// Moving a player that is not waiting into a game state keeps the invariant.
proof fn lemma_set_in_play(s: ServerView, id: Seq<char>, st: StateView)
    requires
        server_wf(s),
        in_play(st),
        find_player(s.players, id) matches Some(i) ==> !(s.players[i].state is InMatchmaking),
    ensures
        server_wf(ServerView { players: set_state_of(s.players, id, st), queue: s.queue, games: s.games }),
{
    let ps = set_state_of(s.players, id, st);
    let s2 = ServerView { players: ps, queue: s.queue, games: s.games };
    lemma_set_state(s.players, id, st);
    lemma_find_player(s.players, id);
    assert forall|i: int, j: int| 0 <= i < ps.len() && 0 <= j < ps.len() && i != j implies #[trigger] ps[i].id != #[trigger] ps[j].id by {
        assert(s.players[i].id != s.players[j].id);
    }
    assert forall|k: int| 0 <= k < s2.queue.len() implies (find_player(s2.players, #[trigger] s2.queue[k]) matches Some(i)
        && s2.players[i].state is InMatchmaking) by {
        lemma_find_player(s.players, s.queue[k]);
        let i = find_player(s.players, s.queue[k])->0;
        if s.players[i].id == id {
            lemma_find_unique(s.players, i);
        }
    }
    assert forall|i: int| 0 <= i < ps.len() && (#[trigger] ps[i]).state is InMatchmaking
        implies s2.queue.contains(ps[i].id) by {
        if s.players[i].id == id {
        } else {
            assert(s.players[i].state is InMatchmaking);
        }
    }
    assert forall|gi: int, i: int|
        0 <= gi < s2.games.len() && 0 <= i < ps.len() && member(#[trigger] s2.games[gi], #[trigger] ps[i].id)
        implies in_play(ps[i].state) by {
        assert(member(s.games[gi], s.players[i].id));
    }
}

/// Resigning keeps the server invariant.
pub proof fn lemma_resign_keeps_wf(s: ServerView, pid: Seq<char>, gid: Seq<char>)
    requires
        server_wf(s),
    ensures
        server_wf(resign_spec(s, pid, gid).0),
{
    lemma_find_game(s.games, gid);
    match find_game(s.games, gid) {
        Some(gi) => {
            if !s.games[gi].over {
                let g = s.games[gi];
                let gs = s.games.update(gi, with_over(g));
                lemma_same_members(s, gs);
                let s1 = ServerView { players: s.players, queue: s.queue, games: gs };
                if g.white == pid || g.black == pid {
                    let winner = if g.white == pid { g.black } else { g.white };
                    let loser = if g.white == pid { g.white } else { g.black };
                    lemma_find_player(s.players, winner);
                    if let Some(i) = find_player(s.players, winner) {
                        assert(member(s1.games[gi], s1.players[i].id));
                    }
                    lemma_set_in_play(s1, winner, StateView::GameOver(gid));
                    let s2 = ServerView { players: set_state_of(s.players, winner, StateView::GameOver(gid)), queue: s.queue, games: gs };
                    lemma_set_state(s.players, winner, StateView::GameOver(gid));
                    lemma_find_player(s2.players, loser);
                    if let Some(i) = find_player(s2.players, loser) {
                        assert(member(s2.games[gi], s2.players[i].id));
                    }
                    lemma_set_in_play(s2, loser, StateView::GameOver(gid));
                }
            }
        },
        None => {},
    }
}

/// Storing a game keeps ids unique; the result holds the game, and otherwise
/// only games of the input with another id.
proof fn lemma_with_game(gs: Seq<GameView>, g: GameView)
    requires
        game_ids_unique(gs),
    ensures
        game_ids_unique(with_game(gs, g)),
        with_game(gs, g).contains(g),
        forall|j: int|
            0 <= j < with_game(gs, g).len() ==> #[trigger] with_game(gs, g)[j] == g || exists|i: int|
                0 <= i < gs.len() && gs[i] == with_game(gs, g)[j] && gs[i].id != g.id,
{
    lemma_find_game(gs, g.id);
    let r = with_game(gs, g);
    match find_game(gs, g.id) {
        Some(k) => {
            assert(r[k] == g);
            assert forall|j: int| 0 <= j < r.len() implies #[trigger] r[j] == g || exists|i: int|
                0 <= i < gs.len() && gs[i] == r[j] && gs[i].id != g.id by {
                if j != k {
                    assert(gs[j] == r[j]);
                    assert(gs[j].id != gs[k].id);
                }
            }
            assert forall|a: int, b: int| 0 <= a < r.len() && 0 <= b < r.len() && a != b implies #[trigger] r[a].id != #[trigger] r[b].id by {
                assert(gs[a].id != gs[b].id);
            }
        },
        None => {
            assert(r[gs.len() as int] == g);
            assert forall|j: int| 0 <= j < r.len() implies #[trigger] r[j] == g || exists|i: int|
                0 <= i < gs.len() && gs[i] == r[j] && gs[i].id != g.id by {
                if j < gs.len() {
                    assert(gs[j] == r[j]);
                }
            }
            assert forall|a: int, b: int| 0 <= a < r.len() && 0 <= b < r.len() && a != b implies #[trigger] r[a].id != #[trigger] r[b].id by {
                if a < gs.len() && b < gs.len() {
                    assert(gs[a].id != gs[b].id);
                }
            }
        },
    }
}

/// Dropping a game keeps ids unique and keeps exactly the games with other ids.
proof fn lemma_without_game(gs: Seq<GameView>, id: Seq<char>)
    requires
        game_ids_unique(gs),
    ensures
        game_ids_unique(without_game(gs, id)),
        forall|j: int|
            0 <= j < without_game(gs, id).len() ==> exists|i: int|
                0 <= i < gs.len() && gs[i] == #[trigger] without_game(gs, id)[j] && gs[i].id != id,
{
    lemma_find_game(gs, id);
    let r = without_game(gs, id);
    match find_game(gs, id) {
        Some(k) => {
            assert forall|j: int| 0 <= j < r.len() implies exists|i: int|
                0 <= i < gs.len() && gs[i] == #[trigger] r[j] && gs[i].id != id by {
                if j < k {
                    assert(gs[j] == r[j]);
                    assert(gs[j].id != gs[k].id);
                } else {
                    assert(gs[j + 1] == r[j]);
                    assert(gs[j + 1].id != gs[k].id);
                }
            }
            assert forall|a: int, b: int| 0 <= a < r.len() && 0 <= b < r.len() && a != b implies #[trigger] r[a].id != #[trigger] r[b].id by {
                let ia = if a < k { a } else { a + 1 };
                let ib = if b < k { b } else { b + 1 };
                assert(r[a] == gs[ia]);
                assert(r[b] == gs[ib]);
                assert(gs[ia].id != gs[ib].id);
            }
        },
        None => {
            assert forall|j: int| 0 <= j < r.len() implies exists|i: int|
                0 <= i < gs.len() && gs[i] == #[trigger] r[j] && gs[i].id != id by {
                assert(gs[j] == r[j]);
            }
        },
    }
}

/// Dropping a player keeps ids unique, keeps exactly the other players, and
/// finds the others where they now are.
proof fn lemma_without_player(ps: Seq<PlayerView>, id: Seq<char>)
    requires
        ids_unique(ps),
    ensures
        ids_unique(without_player(ps, id)),
        forall|j: int|
            0 <= j < without_player(ps, id).len() ==> exists|i: int|
                0 <= i < ps.len() && ps[i] == #[trigger] without_player(ps, id)[j] && ps[i].id != id,
        forall|i: int| 0 <= i < ps.len() && ps[i].id != id ==> #[trigger] without_player(ps, id).contains(ps[i]),
        forall|x: Seq<char>|
            x != id ==> (#[trigger] find_player(without_player(ps, id), x) is Some <==> find_player(ps, x) is Some),
{
    lemma_find_player(ps, id);
    let r = without_player(ps, id);
    match find_player(ps, id) {
        Some(k) => {
            assert forall|j: int| 0 <= j < r.len() implies exists|i: int|
                0 <= i < ps.len() && ps[i] == #[trigger] r[j] && ps[i].id != id by {
                if j < k {
                    assert(ps[j] == r[j]);
                    assert(ps[j].id != ps[k].id);
                } else {
                    assert(ps[j + 1] == r[j]);
                    assert(ps[j + 1].id != ps[k].id);
                }
            }
            assert forall|a: int, b: int| 0 <= a < r.len() && 0 <= b < r.len() && a != b implies #[trigger] r[a].id != #[trigger] r[b].id by {
                let ia = if a < k { a } else { a + 1 };
                let ib = if b < k { b } else { b + 1 };
                assert(r[a] == ps[ia]);
                assert(r[b] == ps[ib]);
                assert(ps[ia].id != ps[ib].id);
            }
            assert forall|i: int| 0 <= i < ps.len() && ps[i].id != id implies #[trigger] r.contains(ps[i]) by {
                if i < k {
                    assert(r[i] == ps[i]);
                } else {
                    assert(i != k);
                    assert(r[i - 1] == ps[i]);
                }
            }
            assert forall|x: Seq<char>| x != id implies (#[trigger] find_player(r, x) is Some <==> find_player(ps, x) is Some) by {
                lemma_find_player(r, x);
                lemma_find_player(ps, x);
                if let Some(i) = find_player(ps, x) {
                    if i < k {
                        assert(r[i].id == x);
                    } else {
                        assert(i != k);
                        assert(r[i - 1].id == x);
                    }
                }
                if let Some(j) = find_player(r, x) {
                    if j < k {
                        assert(ps[j].id == x);
                    } else {
                        assert(ps[j + 1].id == x);
                    }
                }
            }
        },
        None => {
            assert forall|j: int| 0 <= j < r.len() implies exists|i: int|
                0 <= i < ps.len() && ps[i] == #[trigger] r[j] && ps[i].id != id by {
                assert(ps[j] == r[j]);
            }
            assert forall|i: int| 0 <= i < ps.len() && ps[i].id != id implies #[trigger] r.contains(ps[i]) by {
                assert(r[i] == ps[i]);
            }
        },
    }
}

/// The invariant, except that players of game `gi` may be in any state.
pub open spec fn wf_except(s: ServerView, gi: int) -> bool {
    &&& ids_unique(s.players)
    &&& game_ids_unique(s.games)
    &&& queue_ok(s)
    &&& one_game_each(s.games)
    &&& forall|gj: int, i: int|
        0 <= gj < s.games.len() && gj != gi && 0 <= i < s.players.len() && member(
            #[trigger] s.games[gj],
            #[trigger] s.players[i].id,
        ) ==> in_play(s.players[i].state)
}

/// Making a player of game `gi` idle keeps the invariant outside that game.
proof fn lemma_idle_member(s: ServerView, gi: int, m: Seq<char>)
    requires
        wf_except(s, gi),
        0 <= gi < s.games.len(),
        member(s.games[gi], m),
        find_player(s.players, m) matches Some(i) ==> !(s.players[i].state is InMatchmaking),
    ensures
        wf_except(ServerView { players: set_state_of(s.players, m, StateView::Idle), queue: s.queue, games: s.games }, gi),
{
    let ps = set_state_of(s.players, m, StateView::Idle);
    let s2 = ServerView { players: ps, queue: s.queue, games: s.games };
    lemma_set_state(s.players, m, StateView::Idle);
    lemma_find_player(s.players, m);
    assert forall|i: int, j: int| 0 <= i < ps.len() && 0 <= j < ps.len() && i != j implies #[trigger] ps[i].id != #[trigger] ps[j].id by {
        assert(s.players[i].id != s.players[j].id);
    }
    assert forall|k: int| 0 <= k < s2.queue.len() implies (find_player(s2.players, #[trigger] s2.queue[k]) matches Some(i)
        && s2.players[i].state is InMatchmaking) by {
        lemma_find_player(s.players, s.queue[k]);
        let i = find_player(s.players, s.queue[k])->0;
        if s.players[i].id == m {
            lemma_find_unique(s.players, i);
        }
    }
    assert forall|i: int| 0 <= i < ps.len() && (#[trigger] ps[i]).state is InMatchmaking
        implies s2.queue.contains(ps[i].id) by {
        if s.players[i].id == m {
            lemma_find_unique(s.players, i);
        } else {
            assert(s.players[i].state is InMatchmaking);
        }
    }
    assert forall|gj: int, i: int|
        0 <= gj < s2.games.len() && gj != gi && 0 <= i < ps.len() && member(#[trigger] s2.games[gj], #[trigger] ps[i].id)
        implies in_play(ps[i].state) by {
        if s.players[i].id == m {
            assert(!member(s.games[gj], s.games[gi].white) && !member(s.games[gj], s.games[gi].black));
        } else {
            assert(member(s.games[gj], s.players[i].id));
        }
    }
}

/// Dropping game `gi` restores the invariant.
proof fn lemma_drop_game(s: ServerView, gi: int)
    requires
        wf_except(s, gi),
        0 <= gi < s.games.len(),
    ensures
        server_wf(ServerView { players: s.players, queue: s.queue, games: without_game(s.games, s.games[gi].id) }),
{
    let gid = s.games[gi].id;
    let gs = without_game(s.games, gid);
    let s2 = ServerView { players: s.players, queue: s.queue, games: gs };
    lemma_without_game(s.games, gid);
    lemma_find_game_unique(s.games, gi);
    assert forall|gj: int, i: int|
        0 <= gj < gs.len() && 0 <= i < s.players.len() && member(#[trigger] gs[gj], #[trigger] s.players[i].id)
        implies in_play(s.players[i].state) by {
        let k = choose|k: int| 0 <= k < s.games.len() && s.games[k] == gs[gj] && s.games[k].id != gid;
        assert(member(s.games[k], s.players[i].id));
    }
    assert forall|a: int, b: int|
        0 <= a < gs.len() && 0 <= b < gs.len() && a != b implies !member(#[trigger] gs[b], (#[trigger] gs[a]).white)
            && !member(gs[b], gs[a].black) by {
        let ka = choose|k: int| 0 <= k < s.games.len() && s.games[k] == gs[a] && s.games[k].id != gid;
        let kb = choose|k: int| 0 <= k < s.games.len() && s.games[k] == gs[b] && s.games[k].id != gid;
        assert(gs[a].id != gs[b].id);
        assert(ka != kb);
        assert(!member(s.games[kb], s.games[ka].white) && !member(s.games[kb], s.games[ka].black));
    }
}

/// Declining a rematch keeps the server invariant.
pub proof fn lemma_decline_rematch_keeps_wf(s: ServerView, pid: Seq<char>, gid: Seq<char>)
    requires
        server_wf(s),
    ensures
        server_wf(decline_rematch_spec(s, pid, gid).0),
{
    lemma_find_game(s.games, gid);
    match find_game(s.games, gid) {
        Some(gi) => {
            let g = s.games[gi];
            if g.over && g.requester is Some {
                let r = g.requester->0;
                if !((pid != g.white && pid != g.black) || pid == r) {
                    lemma_find_player(s.players, g.white);
                    if let Some(i) = find_player(s.players, g.white) {
                        assert(member(s.games[gi], s.players[i].id));
                    }
                    lemma_idle_member(s, gi, g.white);
                    let s1 = ServerView { players: set_state_of(s.players, g.white, StateView::Idle), queue: s.queue, games: s.games };
                    lemma_set_state(s.players, g.white, StateView::Idle);
                    lemma_find_player(s1.players, g.black);
                    if let Some(i) = find_player(s1.players, g.black) {
                        if s.players[i].id != g.white {
                            assert(member(s.games[gi], s.players[i].id));
                        } else {
                            lemma_find_unique(s.players, i);
                        }
                    }
                    lemma_idle_member(s1, gi, g.black);
                    let s2 = ServerView { players: set_state_of(s1.players, g.black, StateView::Idle), queue: s.queue, games: s.games };
                    lemma_drop_game(s2, gi);
                    lemma_find_game_unique(s.games, gi);
                }
            }
        },
        None => {},
    }
}

/// Dropping a player (and its queue entry) keeps the invariant.
proof fn lemma_drop_player(s: ServerView, pid: Seq<char>)
    requires
        server_wf(s),
    ensures
        server_wf(ServerView { players: without_player(s.players, pid), queue: queue_without(s.queue, pid), games: s.games }),
{
    let ps = without_player(s.players, pid);
    let q = queue_without(s.queue, pid);
    let s2 = ServerView { players: ps, queue: q, games: s.games };
    lemma_without_player(s.players, pid);
    lemma_queue_without_short(s.queue, pid);
    assert forall|k: int| 0 <= k < q.len() implies (find_player(ps, #[trigger] q[k]) matches Some(i)
        && ps[i].state is InMatchmaking) by {
        let x = q[k];
        assert(x == s.queue[k]);
        assert(x != pid);
        lemma_find_player(s.players, x);
        lemma_find_player(ps, x);
        let j = find_player(ps, x)->0;
        let i = choose|i: int| 0 <= i < s.players.len() && s.players[i] == ps[j] && s.players[i].id != pid;
        lemma_find_unique(s.players, i);
    }
    assert forall|j: int| 0 <= j < ps.len() && (#[trigger] ps[j]).state is InMatchmaking
        implies q.contains(ps[j].id) by {
        let i = choose|i: int| 0 <= i < s.players.len() && s.players[i] == ps[j] && s.players[i].id != pid;
        assert(s.queue.contains(s.players[i].id));
        assert(q[0] == s.players[i].id);
    }
    assert forall|gi: int, j: int|
        0 <= gi < s.games.len() && 0 <= j < ps.len() && member(#[trigger] s.games[gi], #[trigger] ps[j].id)
        implies in_play(ps[j].state) by {
        let i = choose|i: int| 0 <= i < s.players.len() && s.players[i] == ps[j] && s.players[i].id != pid;
        assert(member(s.games[gi], s.players[i].id));
    }
}

/// Removing a player keeps the server invariant.
pub proof fn lemma_remove_player_keeps_wf(s: ServerView, pid: Seq<char>)
    requires
        server_wf(s),
    ensures
        server_wf(remove_player_spec(s, pid).0),
{
    lemma_drop_player(s, pid);
    let s1 = ServerView { players: without_player(s.players, pid), queue: queue_without(s.queue, pid), games: s.games };
    match game_of(s, pid) {
        None => {},
        Some((g, opp, over)) => {
            lemma_find_game(s.games, g);
            let gi = find_game(s.games, g)->0;
            assert(member(s1.games[gi], opp));
            lemma_find_player(s1.players, opp);
            if let Some(i) = find_player(s1.players, opp) {
                assert(member(s1.games[gi], s1.players[i].id));
            }
            lemma_idle_member(s1, gi, opp);
            let s2 = ServerView { players: set_state_of(s1.players, opp, StateView::Idle), queue: s1.queue, games: s.games };
            lemma_drop_game(s2, gi);
        },
    }
}

/// A new game between two distinct players outside any game keeps the
/// invariant, when nobody else is waiting and the queue is empty.
proof fn lemma_new_game(s: ServerView, p1: Seq<char>, p2: Seq<char>, gid: Seq<char>)
    requires
        ids_unique(s.players),
        game_ids_unique(s.games),
        one_game_each(s.games),
        members_in_play(s),
        s.queue.len() == 0,
        forall|i: int|
            0 <= i < s.players.len() && (#[trigger] s.players[i]).state is InMatchmaking ==> s.players[i].id
                == p1 || s.players[i].id == p2,
        p1 != p2,
        forall|gi: int| 0 <= gi < s.games.len() ==> !member(#[trigger] s.games[gi], p1) && !member(s.games[gi], p2),
    ensures
        server_wf(create_game_spec(s, p1, p2, gid).0),
{
    let g = GameView { id: gid, white: p1, black: p2, over: false, requester: None };
    let gs = with_game(s.games, g);
    let ps1 = set_state_of(s.players, p1, StateView::InGame(gid));
    let ps2 = set_state_of(ps1, p2, StateView::InGame(gid));
    let s2 = create_game_spec(s, p1, p2, gid).0;
    assert(s2.players == ps2 && s2.games == gs && s2.queue == s.queue);
    lemma_with_game(s.games, g);
    lemma_set_state(s.players, p1, StateView::InGame(gid));
    lemma_set_state(ps1, p2, StateView::InGame(gid));
    assert(ids_unique(ps1));
    assert forall|i: int, j: int| 0 <= i < ps2.len() && 0 <= j < ps2.len() && i != j implies #[trigger] ps2[i].id != #[trigger] ps2[j].id by {
        assert(s.players[i].id != s.players[j].id);
    }
    assert forall|a: int, b: int|
        0 <= a < gs.len() && 0 <= b < gs.len() && a != b implies !member(#[trigger] gs[b], (#[trigger] gs[a]).white)
            && !member(gs[b], gs[a].black) by {
        assert(gs[a].id != gs[b].id);
        if gs[a] == g {
            let kb = choose|i: int| 0 <= i < s.games.len() && s.games[i] == gs[b] && s.games[i].id != g.id;
            assert(!member(s.games[kb], p1) && !member(s.games[kb], p2));
        } else if gs[b] == g {
            let ka = choose|i: int| 0 <= i < s.games.len() && s.games[i] == gs[a] && s.games[i].id != g.id;
            assert(!member(s.games[ka], p1) && !member(s.games[ka], p2));
        } else {
            let ka = choose|i: int| 0 <= i < s.games.len() && s.games[i] == gs[a] && s.games[i].id != g.id;
            let kb = choose|i: int| 0 <= i < s.games.len() && s.games[i] == gs[b] && s.games[i].id != g.id;
            assert(ka != kb);
            assert(!member(s.games[kb], s.games[ka].white) && !member(s.games[kb], s.games[ka].black));
        }
    }
    assert forall|gi: int, i: int|
        0 <= gi < gs.len() && 0 <= i < ps2.len() && member(#[trigger] gs[gi], #[trigger] ps2[i].id)
        implies in_play(ps2[i].state) by {
        let id = s.players[i].id;
        if id == p2 {
            assert(ps2[i].state == StateView::InGame(gid));
        } else if id == p1 {
            assert(ps1[i].state == StateView::InGame(gid));
        } else {
            assert(gs[gi] != g);
            let k = choose|k: int| 0 <= k < s.games.len() && s.games[k] == gs[gi] && s.games[k].id != g.id;
            assert(member(s.games[k], id));
        }
    }
    assert forall|i: int| 0 <= i < ps2.len() && (#[trigger] ps2[i]).state is InMatchmaking
        implies s2.queue.contains(ps2[i].id) by {
        let id = s.players[i].id;
        if id == p2 {
            assert(ps2[i].state == StateView::InGame(gid));
        } else if id == p1 {
            assert(ps1[i].state == StateView::InGame(gid));
        } else {
            assert(s.players[i].state is InMatchmaking);
        }
    }
}

/// Joining the queue keeps the server invariant.
pub proof fn lemma_start_matchmaking_keeps_wf(s: ServerView, pid: Seq<char>, gid: Seq<char>)
    requires
        server_wf(s),
    ensures
        server_wf(start_matchmaking_spec(s, pid, gid).0),
{
    lemma_find_player(s.players, pid);
    match find_player(s.players, pid) {
        Some(pi) => {
            if s.players[pi].state is Idle {
                let ps = set_state_of(s.players, pid, StateView::InMatchmaking);
                let q = s.queue.push(pid);
                lemma_set_state(s.players, pid, StateView::InMatchmaking);
                assert(ids_unique(ps)) by {
                    assert forall|i: int, j: int| 0 <= i < ps.len() && 0 <= j < ps.len() && i != j implies #[trigger] ps[i].id != #[trigger] ps[j].id by {
                        assert(s.players[i].id != s.players[j].id);
                    }
                }
                assert forall|gi: int| 0 <= gi < s.games.len() implies !member(#[trigger] s.games[gi], pid) by {
                    if member(s.games[gi], pid) {
                        assert(member(s.games[gi], s.players[pi].id));
                    }
                }
                if q.len() >= 2 {
                    let q0 = s.queue[0];
                    lemma_find_player(s.players, q0);
                    let qi = find_player(s.players, q0)->0;
                    assert(s.players[qi].state is InMatchmaking);
                    assert(qi != pi);
                    assert(q0 != pid);
                    assert forall|gi: int| 0 <= gi < s.games.len() implies !member(#[trigger] s.games[gi], q0) by {
                        if member(s.games[gi], q0) {
                            assert(member(s.games[gi], s.players[qi].id));
                        }
                    }
                    let s1 = ServerView { players: ps, queue: q.subrange(2, q.len() as int), games: s.games };
                    assert forall|gi: int, i: int|
                        0 <= gi < s1.games.len() && 0 <= i < ps.len() && member(#[trigger] s1.games[gi], #[trigger] ps[i].id)
                        implies in_play(ps[i].state) by {
                        assert(member(s.games[gi], s.players[i].id));
                    }
                    assert forall|i: int| 0 <= i < ps.len() && (#[trigger] ps[i]).state is InMatchmaking
                        implies ps[i].id == q[1] || ps[i].id == q[0] by {
                        if s.players[i].id != pid {
                            assert(s.queue.contains(s.players[i].id));
                        }
                    }
                    lemma_new_game(s1, q[1], q[0], gid);
                } else {
                    let s2 = ServerView { players: ps, queue: q, games: s.games };
                    assert forall|k: int| 0 <= k < q.len() implies (find_player(ps, #[trigger] q[k]) matches Some(i)
                        && ps[i].state is InMatchmaking) by {
                        assert(q[k] == pid);
                        lemma_find_unique(s.players, pi);
                    }
                    assert forall|i: int| 0 <= i < ps.len() && (#[trigger] ps[i]).state is InMatchmaking
                        implies q.contains(ps[i].id) by {
                        if s.players[i].id != pid {
                            assert(s.queue.contains(s.players[i].id));
                        }
                        assert(q[0] == pid);
                    }
                    assert forall|gi: int, i: int|
                        0 <= gi < s.games.len() && 0 <= i < ps.len() && member(#[trigger] s.games[gi], #[trigger] ps[i].id)
                        implies in_play(ps[i].state) by {
                        assert(member(s.games[gi], s.players[i].id));
                    }
                }
            }
        },
        None => {},
    }
}

/// Adding a player under an id that is neither a player's nor in any game
/// keeps the server invariant.
pub proof fn lemma_add_player_keeps_wf(s: ServerView, id: Seq<char>, name: Seq<char>)
    requires
        server_wf(s),
        find_player(s.players, id) is None,
        forall|gi: int| 0 <= gi < s.games.len() ==> !member(#[trigger] s.games[gi], id),
    ensures
        server_wf(add_player_spec(s, id, name)),
{
    let p = PlayerView { id, name, state: StateView::Idle };
    let ps = s.players.push(p);
    lemma_find_player(s.players, id);
    assert(add_player_spec(s, id, name).players == ps);
    assert forall|i: int, j: int| 0 <= i < ps.len() && 0 <= j < ps.len() && i != j implies #[trigger] ps[i].id != #[trigger] ps[j].id by {
        if i < s.players.len() && j < s.players.len() {
            assert(s.players[i].id != s.players[j].id);
        }
    }
    assert forall|k: int| 0 <= k < s.queue.len() implies (find_player(ps, #[trigger] s.queue[k]) matches Some(i)
        && ps[i].state is InMatchmaking) by {
        lemma_find_player(s.players, s.queue[k]);
        lemma_find_player(ps, s.queue[k]);
        let i = find_player(s.players, s.queue[k])->0;
        assert(ps[i].id == s.queue[k]);
        let j = find_player(ps, s.queue[k])->0;
        assert(j <= i);
        if j < i {
            assert(s.players[j].id == s.queue[k]);
        }
    }
    assert forall|i: int| 0 <= i < ps.len() && (#[trigger] ps[i]).state is InMatchmaking
        implies s.queue.contains(ps[i].id) by {
        assert(i < s.players.len());
        assert(s.players[i] == ps[i]);
    }
    assert forall|gi: int, i: int|
        0 <= gi < s.games.len() && 0 <= i < ps.len() && member(#[trigger] s.games[gi], #[trigger] ps[i].id)
        implies in_play(ps[i].state) by {
        assert(i < s.players.len());
        assert(s.players[i] == ps[i]);
    }
}

/// Accepting a rematch keeps the server invariant.
pub proof fn lemma_accept_rematch_keeps_wf(s: ServerView, pid: Seq<char>, gid: Seq<char>, new_gid: Seq<char>)
    requires
        server_wf(s),
    ensures
        server_wf(accept_rematch_spec(s, pid, gid, new_gid).0),
{
    lemma_find_game(s.games, gid);
    match find_game(s.games, gid) {
        Some(gi) => {
            let g = s.games[gi];
            if g.over && g.requester is Some {
                let r = g.requester->0;
                if !((pid != g.white && pid != g.black) || pid == r) {
                    let p1 = g.black;
                    let p2 = g.white;
                    let ng = GameView { id: new_gid, white: p1, black: p2, over: false, requester: None };
                    let w = with_game(s.games, ng);
                    let gs = without_game(w, g.id);
                    let ps1 = set_state_of(s.players, p1, StateView::InGame(new_gid));
                    let ps2 = set_state_of(ps1, p2, StateView::InGame(new_gid));
                    let s2 = accept_rematch_spec(s, pid, gid, new_gid).0;
                    assert(s2.players == ps2 && s2.games == gs && s2.queue == s.queue);
                    lemma_with_game(s.games, ng);
                    lemma_without_game(w, g.id);
                    lemma_set_state(s.players, p1, StateView::InGame(new_gid));
                    lemma_set_state(ps1, p2, StateView::InGame(new_gid));
                    assert(ids_unique(ps1));
                    assert forall|i: int, j: int| 0 <= i < ps2.len() && 0 <= j < ps2.len() && i != j implies #[trigger] ps2[i].id != #[trigger] ps2[j].id by {
                        assert(s.players[i].id != s.players[j].id);
                    }
                    // Every game left is the new game or an old game other than `g`.
                    assert forall|a: int| 0 <= a < gs.len() implies #[trigger] gs[a] == ng || exists|k: int|
                        0 <= k < s.games.len() && k != gi && s.games[k] == gs[a] by {
                        let x = choose|x: int| 0 <= x < w.len() && w[x] == gs[a] && w[x].id != g.id;
                        if w[x] != ng {
                            let k = choose|k: int| 0 <= k < s.games.len() && s.games[k] == w[x] && s.games[k].id != ng.id;
                            assert(k != gi);
                        }
                    }
                    assert forall|a: int, b: int|
                        0 <= a < gs.len() && 0 <= b < gs.len() && a != b implies !member(#[trigger] gs[b], (#[trigger] gs[a]).white)
                            && !member(gs[b], gs[a].black) by {
                        assert(gs[a].id != gs[b].id);
                        if gs[a] == ng {
                            let kb = choose|k: int| 0 <= k < s.games.len() && k != gi && s.games[k] == gs[b];
                            assert(!member(s.games[kb], s.games[gi].white) && !member(s.games[kb], s.games[gi].black));
                        } else if gs[b] == ng {
                            let ka = choose|k: int| 0 <= k < s.games.len() && k != gi && s.games[k] == gs[a];
                            assert(!member(s.games[gi], s.games[ka].white) && !member(s.games[gi], s.games[ka].black));
                        } else {
                            let ka = choose|k: int| 0 <= k < s.games.len() && k != gi && s.games[k] == gs[a];
                            let kb = choose|k: int| 0 <= k < s.games.len() && k != gi && s.games[k] == gs[b];
                            assert(ka != kb);
                            assert(!member(s.games[kb], s.games[ka].white) && !member(s.games[kb], s.games[ka].black));
                        }
                    }
                    assert forall|a: int, i: int|
                        0 <= a < gs.len() && 0 <= i < ps2.len() && member(#[trigger] gs[a], #[trigger] ps2[i].id)
                        implies in_play(ps2[i].state) by {
                        let id = s.players[i].id;
                        if id == p2 {
                            assert(ps2[i].state == StateView::InGame(new_gid));
                        } else if id == p1 {
                            assert(ps1[i].state == StateView::InGame(new_gid));
                        } else {
                            assert(gs[a] != ng);
                            let k = choose|k: int| 0 <= k < s.games.len() && k != gi && s.games[k] == gs[a];
                            assert(member(s.games[k], id));
                        }
                    }
                    assert forall|k: int| 0 <= k < s.queue.len() implies (find_player(ps2, #[trigger] s.queue[k]) matches Some(i)
                        && ps2[i].state is InMatchmaking) by {
                        lemma_find_player(s.players, s.queue[k]);
                        let i = find_player(s.players, s.queue[k])->0;
                        assert(s.players[i].state is InMatchmaking);
                        if s.players[i].id == p1 || s.players[i].id == p2 {
                            assert(member(s.games[gi], s.players[i].id));
                        }
                    }
                    assert forall|i: int| 0 <= i < ps2.len() && (#[trigger] ps2[i]).state is InMatchmaking
                        implies s.queue.contains(ps2[i].id) by {
                        let id = s.players[i].id;
                        if id == p2 {
                            assert(ps2[i].state == StateView::InGame(new_gid));
                        } else if id == p1 {
                            assert(ps1[i].state == StateView::InGame(new_gid));
                        } else {
                            assert(s.players[i].state is InMatchmaking);
                        }
                    }
                }
            }
        },
        None => {},
    }
}

/// Forwarding moves and chat lines changes nothing; the messages they send go
/// only to players of the named game other than (for moves) the sender.
pub proof fn lemma_move_goes_to_opponent(s: ServerView, pid: Seq<char>, gid: Seq<char>, from: u8, to: u8, k: int)
    requires
        0 <= k < handle_move_spec(s, pid, gid, from, to).len(),
    ensures
        find_game(s.games, gid) matches Some(gi) && {
            let g = s.games[gi];
            &&& !g.over
            &&& member(g, pid)
            &&& handle_move_spec(s, pid, gid, from, to)[k].0 == other_side(g, pid)
            &&& handle_move_spec(s, pid, gid, from, to)[k].1 == crate::protocol::MessageView::OpponentMove { game_id: gid, from, to }
        },
        find_player(s.players, handle_move_spec(s, pid, gid, from, to)[k].0) is Some,
{
}

/// Every request of a joined player that `request_spec` describes keeps the
/// server state well formed (matchmaking and rematch acceptance, which take
/// a new game's id, have their own laws above).
pub proof fn lemma_request_keeps_wf(s: ServerView, pid: Seq<char>, msg: ClientMessage)
    requires
        server_wf(s),
    ensures
        server_wf(request_spec(s, pid, msg).0),
{
    match msg {
        ClientMessage::LeaveMatchmaking => lemma_leave_matchmaking_keeps_wf(s, pid),
        ClientMessage::Resign { game_id } => lemma_resign_keeps_wf(s, pid, game_id@),
        ClientMessage::RequestRematch { game_id } => lemma_request_rematch_keeps_wf(s, pid, game_id@),
        ClientMessage::DeclineRematch { game_id } => lemma_decline_rematch_keeps_wf(s, pid, game_id@),
        _ => {},
    }
}

} // verus!
