//! The player table of a room as a mathematical value: a sequence of players
//! in which no id occurs twice, in the order of their arrival.

use crate::player::PlayerView;
use vstd::prelude::*;

verus! {

/// No two entries share an id.
pub open spec fn ids_unique(players: Seq<PlayerView>) -> bool {
    forall|i: int, j: int|
        0 <= i < j < players.len() ==> (#[trigger] players[i]).id != (#[trigger] players[j]).id
}

/// Whether a player is known by `id`.
pub open spec fn has_player(players: Seq<PlayerView>, id: Seq<char>) -> bool {
    exists|i: int| 0 <= i < players.len() && (#[trigger] players[i]).id == id
}

/// Where the player known by `id` stands in the table, if there is one.
pub open spec fn index_of(players: Seq<PlayerView>, id: Seq<char>) -> int {
    choose|i: int| 0 <= i < players.len() && (#[trigger] players[i]).id == id
}

/// The table with `p` in it: in the place of the entry with the same id
/// where there is one, else at the end.
pub open spec fn put(players: Seq<PlayerView>, p: PlayerView) -> Seq<PlayerView> {
    if has_player(players, p.id) {
        players.update(index_of(players, p.id), p)
    } else {
        players.push(p)
    }
}

/// The table without the player known by `id`.
pub open spec fn without(players: Seq<PlayerView>, id: Seq<char>) -> Seq<PlayerView> {
    if has_player(players, id) {
        players.remove(index_of(players, id))
    } else {
        players
    }
}

/// The people in the table, simulated players left out.
pub open spec fn humans(players: Seq<PlayerView>) -> Seq<PlayerView> {
    players.filter(|p: PlayerView| !p.is_bot())
}

/// The simulated players in the table, people left out.
pub open spec fn bots(players: Seq<PlayerView>) -> Seq<PlayerView> {
    players.filter(|p: PlayerView| p.is_bot())
}

/// The display names, in table order.
pub open spec fn names(players: Seq<PlayerView>) -> Seq<Seq<char>> {
    players.map_values(|p: PlayerView| p.name)
}

/// Every player back to where a race begins.
pub open spec fn all_rested(players: Seq<PlayerView>) -> Seq<PlayerView> {
    players.map_values(|p: PlayerView| p.rested())
}

/// Whether every player has completed the passage.
pub open spec fn all_finished(players: Seq<PlayerView>) -> bool {
    forall|i: int| 0 <= i < players.len() ==> (#[trigger] players[i]).finished
}

/// Whether every player is consistent and stands within `len` characters.
pub open spec fn all_within(players: Seq<PlayerView>, len: int) -> bool {
    forall|i: int|
        0 <= i < players.len() ==> (#[trigger] players[i]).wf() && players[i].position <= len
}

/// In a table without repeated ids, an entry with the id is the entry with
/// the id.
pub proof fn lemma_index_of(players: Seq<PlayerView>, i: int)
    requires
        ids_unique(players),
        0 <= i < players.len(),
    ensures
        has_player(players, players[i].id),
        index_of(players, players[i].id) == i,
{
    let id = players[i].id;
    let j = index_of(players, id);
    assert(0 <= j < players.len() && players[j].id == id);
    if j < i {
        assert(players[j].id != players[i].id);
    } else if i < j {
        assert(players[i].id != players[j].id);
    }
}

/// Putting a player into a table keeps the ids apart, changes the length by
/// at most one, and leaves the new player findable.
pub proof fn lemma_put(players: Seq<PlayerView>, p: PlayerView)
    requires
        ids_unique(players),
    ensures
        ids_unique(put(players, p)),
        has_player(put(players, p), p.id),
        put(players, p)[index_of(put(players, p), p.id)] == p,
        has_player(players, p.id) ==> put(players, p).len() == players.len(),
        !has_player(players, p.id) ==> put(players, p).len() == players.len() + 1,
        forall|id: Seq<char>|
            id != p.id ==> (has_player(put(players, p), id) <==> has_player(players, id)),
{
    let after = put(players, p);
    if has_player(players, p.id) {
        let k = index_of(players, p.id);
        assert forall|i: int, j: int| 0 <= i < j < after.len() implies (#[trigger] after[i]).id != (
        #[trigger] after[j]).id by {
            assert(players[i].id != players[j].id);
        }
        assert(after[k].id == p.id);
        lemma_index_of(after, k);
        assert forall|id: Seq<char>| id != p.id implies (has_player(after, id) <==> has_player(
            players,
            id,
        )) by {
            if has_player(after, id) {
                let i = index_of(after, id);
                assert(players[i].id == id);
            }
            if has_player(players, id) {
                let i = index_of(players, id);
                assert(after[i].id == id);
            }
        }
    } else {
        let k = players.len() as int;
        assert forall|i: int, j: int| 0 <= i < j < after.len() implies (#[trigger] after[i]).id != (
        #[trigger] after[j]).id by {
            if j < k {
                assert(players[i].id != players[j].id);
            } else {
                assert(players[i].id != p.id);
            }
        }
        assert(after[k].id == p.id);
        lemma_index_of(after, k);
        assert forall|id: Seq<char>| id != p.id implies (has_player(after, id) <==> has_player(
            players,
            id,
        )) by {
            if has_player(after, id) {
                let i = index_of(after, id);
                assert(players[i].id == id);
            }
            if has_player(players, id) {
                let i = index_of(players, id);
                assert(after[i].id == id);
            }
        }
    }
}

/// Taking a player out of a table keeps the ids apart and leaves no entry
/// with that id.
pub proof fn lemma_without(players: Seq<PlayerView>, id: Seq<char>)
    requires
        ids_unique(players),
    ensures
        ids_unique(without(players, id)),
        !has_player(without(players, id), id),
        has_player(players, id) ==> without(players, id).len() == players.len() - 1,
        !has_player(players, id) ==> without(players, id) == players,
{
    let after = without(players, id);
    if has_player(players, id) {
        let k = index_of(players, id);
        assert forall|i: int, j: int| 0 <= i < j < after.len() implies (#[trigger] after[i]).id != (
        #[trigger] after[j]).id by {
            let oi = if i < k { i } else { i + 1 };
            let oj = if j < k { j } else { j + 1 };
            assert(players[oi].id != players[oj].id);
        }
        if has_player(after, id) {
            let i = index_of(after, id);
            let oi = if i < k { i } else { i + 1 };
            assert(players[oi].id == id);
            lemma_index_of(players, oi);
        }
    }
}

/// Resting every player changes neither ids nor names nor the order, and
/// leaves everyone consistent and at position 0.
pub proof fn lemma_all_rested(players: Seq<PlayerView>)
    ensures
        all_rested(players).len() == players.len(),
        ids_unique(players) ==> ids_unique(all_rested(players)),
        names(all_rested(players)) == names(players),
        all_within(all_rested(players), 0),
        forall|i: int|
            0 <= i < players.len() ==> {
                &&& (#[trigger] all_rested(players)[i]).position == 0
                &&& all_rested(players)[i].errors == 0
                &&& !all_rested(players)[i].finished
                &&& all_rested(players)[i].id == players[i].id
                &&& all_rested(players)[i].kind == players[i].kind
            },
{
    let after = all_rested(players);
    if ids_unique(players) {
        assert forall|i: int, j: int| 0 <= i < j < after.len() implies (#[trigger] after[i]).id != (
        #[trigger] after[j]).id by {
            assert(players[i].id != players[j].id);
        }
    }
    assert(names(after) =~= names(players));
}

/// The people of a table are some of its entries, in their order: ids stay
/// apart.
pub proof fn lemma_humans(players: Seq<PlayerView>)
    ensures
        humans(players).len() <= players.len(),
        ids_unique(players) ==> ids_unique(humans(players)),
        forall|i: int| 0 <= i < humans(players).len() ==> !(#[trigger] humans(players)[i]).is_bot(),
        forall|i: int|
            0 <= i < humans(players).len() ==> has_player(
                players,
                (#[trigger] humans(players)[i]).id,
            ),
    decreases players.len(),
{
    reveal(Seq::filter);
    let keep = |p: PlayerView| !p.is_bot();
    if players.len() > 0 {
        let front = players.drop_last();
        lemma_humans(front);
        let hs = humans(players);
        let hf = humans(front);
        assert forall|i: int| 0 <= i < hs.len() implies has_player(
            players,
            (#[trigger] hs[i]).id,
        ) by {
            if i < hf.len() {
                assert(hs[i] == hf[i]);
                let k = index_of(front, hf[i].id);
                assert(players[k].id == hs[i].id);
            } else {
                assert(hs[i] == players.last());
                assert(players[players.len() - 1].id == hs[i].id);
            }
        }
        if ids_unique(players) {
            assert(ids_unique(front)) by {
                assert forall|i: int, j: int| 0 <= i < j < front.len() implies (
                #[trigger] front[i]).id != (#[trigger] front[j]).id by {
                    assert(players[i].id != players[j].id);
                }
            }
            assert forall|i: int, j: int| 0 <= i < j < hs.len() implies (#[trigger] hs[i]).id != (
            #[trigger] hs[j]).id by {
                if j < hf.len() {
                    assert(hf[i].id != hf[j].id);
                } else {
                    assert(hs[j] == players.last());
                    assert(hs[i] == hf[i]);
                    let k = index_of(front, hf[i].id);
                    assert(has_player(front, hf[i].id));
                    assert(players[k].id != players[players.len() - 1].id);
                }
            }
        }
    }
}

/// Everybody in a table is a person or a simulated player, and nobody is
/// both.
pub proof fn lemma_humans_and_bots(players: Seq<PlayerView>)
    ensures
        players.len() == humans(players).len() + bots(players).len(),
    decreases players.len(),
{
    reveal(Seq::filter);
    if players.len() > 0 {
        lemma_humans_and_bots(players.drop_last());
    }
}

} // verus!
