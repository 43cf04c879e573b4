//! The laws of the service: every transition of [`crate::model`] keeps the
//! invariant [`crate::model::inv`], and the round-trip properties of the
//! protocol hold.

use vstd::prelude::*;

use crate::model::{
    connection_made_spec, create_lobby_spec, inv, lobby_ok, member_entry_ok, player_name_updated_spec,
    player_ok, ServerV,
};
use crate::teams::{
    flat, is_member, lemma_member_team, lemma_occ_in_concat, lemma_occ_in_contains, occ,
};
use crate::types::{ActionV, LobbyId, LobbyStateV, LobbyV, PlayerId};

verus! {

/// Replacing one lobby's record with one of equal membership and sound
/// shape keeps the invariant.
pub proof fn lemma_inv_replace_lobby(s: ServerV, lid: u128, l2: LobbyV)
    requires
        inv(s),
        s.lobbies.contains_key(lid),
        l2.id == LobbyId(lid),
        1 <= l2.settings.team_count,
        1 <= l2.settings.player_limit_per_team,
        l2.settings.team_count * l2.settings.player_limit_per_team <= usize::MAX as int,
        l2.players.len() == l2.settings.team_count,
        forall|t: int|
            0 <= t < l2.players.len() ==> (#[trigger] l2.players[t]).len()
                <= l2.settings.player_limit_per_team,
        flat(l2.players).len() >= 1,
        is_member(l2.players, l2.leader),
        forall|p: PlayerId| occ(l2.players, p) == occ(s.lobbies[lid].players, p),
        match l2.lobby_state {
            LobbyStateV::ChampSelect(cs) => forall|q: u128|
                #[trigger] cs.selected_champs.contains_key(q) <==> is_member(
                    l2.players,
                    PlayerId(q),
                ),
            _ => true,
        },
        (l2.lobby_state is InGame) <==> (s.lobbies[lid].lobby_state is InGame),
    ensures
        inv(ServerV { lobbies: s.lobbies.insert(lid, l2), ..s }),
{
    let s2 = ServerV { lobbies: s.lobbies.insert(lid, l2), ..s };
    let l = s.lobbies[lid];
    assert forall|k: u128| #[trigger] s2.lobbies.contains_key(k) implies lobby_ok(s2, k) by {
        assert(lobby_ok(s, k));
        if k != lid {
            let lk = s2.lobbies[k];
            assert forall|t: int, i: int|
                0 <= t < lk.players.len() && 0 <= i < lk.players[t].len() implies member_entry_ok(
                s2,
                k,
                #[trigger] lk.players[t][i],
            ) by {
                assert(member_entry_ok(s, k, lk.players[t][i]));
            }
        } else {
            assert forall|t: int, i: int|
                0 <= t < l2.players.len() && 0 <= i < l2.players[t].len() implies member_entry_ok(
                s2,
                lid,
                #[trigger] l2.players[t][i],
            ) by {
                let p = l2.players[t][i];
                assert(l2.players[t].contains(p));
                lemma_member_team(l2.players, p);
                assert(is_member(l2.players, p));
                assert(is_member(l.players, p));
                lemma_member_team(l.players, p);
                let ot = choose|ot: int|
                    0 <= ot < l.players.len() && (#[trigger] l.players[ot]).contains(p);
                let oi = choose|oi: int| 0 <= oi < l.players[ot].len() && l.players[ot][oi] == p;
                assert(member_entry_ok(s, lid, l.players[ot][oi]));
            }
        }
    }
    assert forall|k: u128| #[trigger] s2.players.contains_key(k) implies player_ok(s2, k) by {
        assert(player_ok(s, k));
    }
}

/// Creating a lobby keeps the invariant.
pub proof fn lemma_inv_create(s: ServerV, pid: PlayerId, minted: u128)
    requires
        inv(s),
    ensures
        inv(create_lobby_spec(s, pid, minted).0),
{
    if s.players.contains_key(pid.0) && !(s.players[pid.0].in_lobby is Some)
        && !s.lobbies.contains_key(minted) {
        let s2 = create_lobby_spec(s, pid, minted).0;
        let lobby = s2.lobbies[minted];
        let teams = lobby.players;
        assert(teams =~= seq![seq![pid], Seq::<PlayerId>::empty()]);
        crate::teams::lemma_flat_pair(seq![pid], Seq::<PlayerId>::empty());
        assert(flat(teams) =~= seq![pid]);
        assert(flat(teams) == seq![pid]);
        assert forall|p: PlayerId| #[trigger] occ(teams, p) == if p == pid {
            1nat
        } else {
            0nat
        } by {
            crate::teams::lemma_occ_in_single(pid, p);
        }
        assert(is_member(teams, pid));
        // the new lobby is sound
        assert(lobby_ok(s2, minted)) by {
            assert(teams.len() == 2);
            assert(teams[0].len() == 1 && teams[1].len() <= 5);
            assert forall|t: int, i: int|
                0 <= t < teams.len() && 0 <= i < teams[t].len() implies member_entry_ok(
                s2,
                minted,
                #[trigger] teams[t][i],
            ) by {
                assert(t == 0 && i == 0);
            }
        }
        // the old lobbies are untouched; no member of one is `pid`
        assert forall|k: u128| #[trigger] s2.lobbies.contains_key(k) && k != minted implies lobby_ok(
            s2,
            k,
        ) by {
            assert(lobby_ok(s, k));
            let lk = s2.lobbies[k];
            assert forall|t: int, i: int|
                0 <= t < lk.players.len() && 0 <= i < lk.players[t].len() implies member_entry_ok(
                s2,
                k,
                #[trigger] lk.players[t][i],
            ) by {
                assert(member_entry_ok(s, k, lk.players[t][i]));
                assert(lk.players[t][i] != pid);
            }
        }
        assert forall|k: u128| #[trigger] s2.players.contains_key(k) implies player_ok(s2, k) by {
            assert(player_ok(s, k));
            if k == pid.0 {
            } else {
                let pk = s.players[k];
                match pk.in_lobby {
                    Some(lidk) => {
                        assert(lidk.0 != minted);
                        assert(s2.lobbies[lidk.0] == s.lobbies[lidk.0]);
                    },
                    None => {},
                }
            }
        }
        // lobby order: `minted` appended
        assert forall|k: u128| #[trigger] s2.lobby_order.contains(k) implies s2.lobbies.contains_key(
            k,
        ) by {
            let i = choose|i: int| 0 <= i < s2.lobby_order.len() && s2.lobby_order[i] == k;
            if i < s.lobby_order.len() {
                assert(s.lobby_order.contains(k));
            }
        }
        assert forall|k: u128| #[trigger] s2.lobbies.contains_key(k) implies s2.lobby_order.contains(
            k,
        ) by {
            if k == minted {
                assert(s2.lobby_order[s.lobby_order.len() as int] == k);
            } else {
                assert(s.lobby_order.contains(k));
                let i = choose|i: int| 0 <= i < s.lobby_order.len() && s.lobby_order[i] == k;
                assert(s2.lobby_order[i] == k);
            }
        }
        assert(crate::idmap::unique_keys(s2.lobby_order)) by {
            assert forall|j: int|
                0 <= j < s.lobby_order.len() implies s.lobby_order[j] != minted by {
                if s.lobby_order[j] == minted {
                    assert(s.lobby_order.contains(minted));
                }
            }
        }
        assert(crate::model::servers_ok(s2)) by {
            assert forall|k: u128| #[trigger] s2.game_servers.contains_key(k) implies s2.lobbies.contains_key(
                k,
            ) && s2.lobbies[k].lobby_state is InGame && s2.port_start <= s2.game_servers[k]
                <= s2.port_end by {
                assert(s.game_servers.contains_key(k));
                assert(s.lobbies.contains_key(k));
                assert(k != minted);
            }
        }
    }
}

/// Accepting a connection keeps the invariant.
pub proof fn lemma_inv_connection_made(s: ServerV, minted: u128)
    requires
        inv(s),
    ensures
        inv(connection_made_spec(s, minted).0),
{
    if !s.players.contains_key(minted) {
        let s2 = connection_made_spec(s, minted).0;
        assert forall|k: u128| #[trigger] s2.lobbies.contains_key(k) implies crate::model::lobby_ok(
            s2,
            k,
        ) by {
            assert(crate::model::lobby_ok(s, k));
            let l = s2.lobbies[k];
            assert forall|t: int, i: int|
                0 <= t < l.players.len() && 0 <= i < l.players[t].len() implies crate::model::member_entry_ok(
                s2,
                k,
                #[trigger] l.players[t][i],
            ) by {
                assert(crate::model::member_entry_ok(s, k, l.players[t][i]));
            }
        }
        assert forall|k: u128| #[trigger] s2.players.contains_key(k) implies crate::model::player_ok(
            s2,
            k,
        ) by {
            if k != minted {
                assert(crate::model::player_ok(s, k));
            }
        }
        assert forall|k: u128| #[trigger] s2.player_order.contains(k) implies s2.players.contains_key(
            k,
        ) by {
            let i = choose|i: int| 0 <= i < s2.player_order.len() && s2.player_order[i] == k;
            if i < s.player_order.len() {
                assert(s.player_order.contains(k));
            }
        }
        assert forall|k: u128| #[trigger] s2.players.contains_key(k) implies s2.player_order.contains(
            k,
        ) by {
            if k == minted {
                assert(s2.player_order[s.player_order.len() as int] == k);
            } else {
                assert(s.players.contains_key(k));
                assert(s.player_order.contains(k));
                let i = choose|i: int| 0 <= i < s.player_order.len() && s.player_order[i] == k;
                assert(s2.player_order[i] == k);
            }
        }
        assert(crate::idmap::unique_keys(s2.player_order)) by {
            assert(forall|j: int|
                0 <= j < s.player_order.len() ==> s.player_order[j] != minted) by {
                assert forall|j: int|
                    0 <= j < s.player_order.len() implies s.player_order[j] != minted by {
                    if s.player_order[j] == minted {
                        assert(s.player_order.contains(minted));
                    }
                }
            }
        }
    }
}

/// A player whose back-reference is empty is in no lobby.
pub proof fn lemma_free_player_not_member(s: ServerV, lid: u128, pid: PlayerId)
    requires
        inv(s),
        s.lobbies.contains_key(lid),
        s.players.contains_key(pid.0),
        s.players[pid.0].in_lobby is None,
    ensures
        occ(s.lobbies[lid].players, pid) == 0,
{
    let l = s.lobbies[lid];
    if occ(l.players, pid) >= 1 {
        lemma_member_team(l.players, pid);
        let t = choose|t: int| 0 <= t < l.players.len() && (#[trigger] l.players[t]).contains(pid);
        let i = choose|i: int| 0 <= i < l.players[t].len() && l.players[t][i] == pid;
        assert(lobby_ok(s, lid));
        assert(member_entry_ok(s, lid, l.players[t][i]));
    }
}

/// Joining a lobby keeps the invariant.
pub proof fn lemma_inv_join(s: ServerV, pid: PlayerId, lid: LobbyId)
    requires
        inv(s),
    ensures
        inv(crate::model::join_lobby_spec(s, pid, lid).0),
{
    if s.players.contains_key(pid.0) && s.players[pid.0].in_lobby is None
        && s.lobbies.contains_key(lid.0) && s.lobbies[lid.0].lobby_state is Normal
        && s.lobbies[lid.0].settings.lobby_is_open && flat(s.lobbies[lid.0].players).len()
        < crate::model::lobby_capacity(s.lobbies[lid.0].settings) {
        let s2 = crate::model::join_lobby_spec(s, pid, lid).0;
        let l = s.lobbies[lid.0];
        let teams = l.players;
        let t = crate::teams::smallest_team(teams);
        let teams2 = teams.update(t, teams[t].push(pid));
        crate::teams::lemma_smallest_team(teams);
        lemma_free_player_not_member(s, lid.0, pid);
        assert forall|p: PlayerId| #[trigger] occ(teams2, p) == occ(teams, p) + (if p == pid {
            1nat
        } else {
            0nat
        }) by {
            crate::teams::lemma_occ_update(teams, t, teams[t].push(pid), p);
            assert(teams[t].push(pid).drop_last() =~= teams[t]);
        }
        // shape: only team `t` grew, and it had room by pigeonhole
        assert(teams[t].len() < l.settings.player_limit_per_team) by {
            crate::teams::lemma_flat_len_lower(teams, teams[t].len() as nat);
            assert(teams.len() * teams[t].len() <= flat(teams).len());
            assert(flat(teams).len() < l.settings.team_count * l.settings.player_limit_per_team);
            assert(teams.len() == l.settings.team_count);
            assert(teams.len() * teams[t].len() < teams.len()
                * l.settings.player_limit_per_team);
            assert(teams[t].len() < l.settings.player_limit_per_team) by (nonlinear_arith)
                requires
                    teams.len() * teams[t].len() < teams.len()
                        * l.settings.player_limit_per_team,
            ;
        }
        crate::teams::lemma_occ_update(teams, t, teams[t].push(pid), pid);
        assert(flat(teams2).len() == flat(teams).len() + 1);
        let l2 = s2.lobbies[lid.0];
        assert(l2.players == teams2);
        assert(lobby_ok(s2, lid.0)) by {
            assert(is_member(teams2, l2.leader));
            assert forall|tt: int, i: int|
                0 <= tt < teams2.len() && 0 <= i < teams2[tt].len() implies member_entry_ok(
                s2,
                lid.0,
                #[trigger] teams2[tt][i],
            ) by {
                let p = teams2[tt][i];
                if p != pid {
                    assert(teams2[tt].contains(p));
                    lemma_member_team(teams2, p);
                    assert(is_member(teams2, p));
                    assert(is_member(teams, p));
                    lemma_member_team(teams, p);
                    let ot = choose|ot: int|
                        0 <= ot < teams.len() && (#[trigger] teams[ot]).contains(p);
                    let oi = choose|oi: int| 0 <= oi < teams[ot].len() && teams[ot][oi] == p;
                    assert(lobby_ok(s, lid.0));
                    assert(member_entry_ok(s, lid.0, teams[ot][oi]));
                }
            }
        }
        assert forall|k: u128| #[trigger] s2.lobbies.contains_key(k) && k != lid.0 implies lobby_ok(
            s2,
            k,
        ) by {
            assert(lobby_ok(s, k));
            let lk = s2.lobbies[k];
            assert forall|tt: int, i: int|
                0 <= tt < lk.players.len() && 0 <= i < lk.players[tt].len() implies member_entry_ok(
                s2,
                k,
                #[trigger] lk.players[tt][i],
            ) by {
                assert(member_entry_ok(s, k, lk.players[tt][i]));
                assert(lk.players[tt][i] != pid);
            }
        }
        assert forall|k: u128| #[trigger] s2.players.contains_key(k) implies player_ok(s2, k) by {
            assert(player_ok(s, k));
            if k == pid.0 {
                assert(occ(teams2, pid) == 1);
            } else {
                let pk = s.players[k];
                match pk.in_lobby {
                    Some(lidk) => {
                        if lidk.0 == lid.0 {
                            assert(occ(teams2, PlayerId(k)) == occ(teams, PlayerId(k)));
                        }
                    },
                    None => {},
                }
            }
        }
    }
}

/// Removing one key from a duplicate-free order keeps it duplicate-free
/// and drops exactly that key.
pub proof fn lemma_order_remove(order: Seq<u128>, k: u128)
    requires
        crate::idmap::unique_keys(order),
        order.contains(k),
    ensures
        ({
            let r = order.remove(crate::idmap::find_key(order, k));
            &&& crate::idmap::unique_keys(r)
            &&& forall|k2: u128| #[trigger] r.contains(k2) <==> (order.contains(k2) && k2 != k)
        }),
{
    let i0 = choose|i: int| 0 <= i < order.len() && order[i] == k;
    crate::idmap::lemma_find_key_at(order, k, i0);
    let i = crate::idmap::find_key(order, k);
    let r = order.remove(i);
    assert forall|k2: u128| #[trigger] r.contains(k2) implies (order.contains(k2) && k2 != k) by {
        let j = choose|j: int| 0 <= j < r.len() && r[j] == k2;
        if j < i {
            assert(order[j] == k2);
        } else {
            assert(order[j + 1] == k2);
        }
    }
    assert forall|k2: u128| order.contains(k2) && k2 != k implies #[trigger] r.contains(k2) by {
        let j = choose|j: int| 0 <= j < order.len() && order[j] == k2;
        if j < i {
            assert(r[j] == k2);
        } else {
            assert(j > i);
            assert(r[j - 1] == k2);
        }
    }
    assert forall|a: int, b: int| 0 <= a < b < r.len() implies r[a] != r[b] by {
        let oa: int = if a < i {
            a
        } else {
            a + 1
        };
        let ob: int = if b < i {
            b
        } else {
            b + 1
        };
        assert(r[a] == order[oa] && r[b] == order[ob]);
    }
}

/// The shared player-left routine keeps the invariant.
pub proof fn lemma_inv_player_left(s: ServerV, pid: PlayerId)
    requires
        inv(s),
    ensures
        inv(crate::model::player_left_spec(s, pid).0),
{
    if !s.players.contains_key(pid.0) {
        return ;
    }
    let pl = s.players[pid.0];
    match pl.in_lobby {
        None => {},
        Some(lid) => {
            if !s.lobbies.contains_key(lid.0) {
                return ;
            }
            let l = s.lobbies[lid.0];
            assert(player_ok(s, pid.0));
            assert(occ(l.players, pid) == 1);
            assert(is_member(l.players, pid));
            crate::teams::lemma_remove_player(l.players, pid);
            let teams2 = crate::teams::remove_player(l.players, pid);
            let s2 = crate::model::player_left_spec(s, pid).0;
            assert forall|q: PlayerId| q != pid implies #[trigger] occ(teams2, q) == occ(
                l.players,
                q,
            ) by {}
            assert(occ(teams2, pid) == 0);
            if flat(teams2).len() == 0 {
                // the lobby dissolves
                assert forall|q: PlayerId| #[trigger] occ(teams2, q) == 0 by {
                    assert(flat(teams2) =~= Seq::<PlayerId>::empty());
                }
                assert forall|k: u128| #[trigger] s2.lobbies.contains_key(k) implies lobby_ok(
                    s2,
                    k,
                ) by {
                    assert(lobby_ok(s, k));
                    let lk = s2.lobbies[k];
                    assert forall|t: int, i: int|
                        0 <= t < lk.players.len() && 0 <= i < lk.players[t].len() implies member_entry_ok(
                        s2,
                        k,
                        #[trigger] lk.players[t][i],
                    ) by {
                        let p = lk.players[t][i];
                        assert(member_entry_ok(s, k, p));
                        assert(p != pid);
                    }
                }
                assert forall|k: u128| #[trigger] s2.players.contains_key(k) implies player_ok(
                    s2,
                    k,
                ) by {
                    assert(player_ok(s, k));
                    if k != pid.0 {
                        let pk = s.players[k];
                        match pk.in_lobby {
                            Some(lidk) => {
                                if lidk.0 == lid.0 {
                                    assert(occ(l.players, PlayerId(k)) == 1);
                                    assert(occ(teams2, PlayerId(k)) == 1);
                                    assert(false);
                                }
                            },
                            None => {},
                        }
                    }
                }
                lemma_order_remove(s.lobby_order, lid.0);
                assert(crate::model::servers_ok(s2));
            } else {
                let promoted = l.leader == pid;
                let leader2 = if promoted {
                    flat(teams2)[0]
                } else {
                    l.leader
                };
                assert(is_member(teams2, leader2)) by {
                    if promoted {
                        assert(flat(teams2).contains(flat(teams2)[0]));
                        crate::teams::lemma_occ_in_contains(flat(teams2), leader2);
                    } else {
                        assert(occ(l.players, l.leader) >= 1);
                        assert(l.leader != pid) by {
                            if l.leader == pid {
                                assert(occ(teams2, pid) == 0);
                            }
                        }
                    }
                }
                let l2 = s2.lobbies[lid.0];
                assert(lobby_ok(s2, lid.0)) by {
                    let t = crate::teams::team_of(l.players, pid);
                    assert forall|tt: int|
                        0 <= tt < teams2.len() implies (#[trigger] teams2[tt]).len()
                        <= l.settings.player_limit_per_team by {
                        if tt != t {
                            assert(teams2[tt] == l.players[tt]);
                        }
                    }
                    assert forall|tt: int, i: int|
                        0 <= tt < teams2.len() && 0 <= i < teams2[tt].len() implies member_entry_ok(
                        s2,
                        lid.0,
                        #[trigger] teams2[tt][i],
                    ) by {
                        let p = teams2[tt][i];
                        assert(teams2[tt].contains(p));
                        crate::teams::lemma_member_team(teams2, p);
                        assert(is_member(teams2, p));
                        assert(p != pid);
                        assert(is_member(l.players, p));
                        crate::teams::lemma_member_team(l.players, p);
                        let ot = choose|ot: int|
                            0 <= ot < l.players.len() && (#[trigger] l.players[ot]).contains(p);
                        let oi = choose|oi: int|
                            0 <= oi < l.players[ot].len() && l.players[ot][oi] == p;
                        assert(member_entry_ok(s, lid.0, l.players[ot][oi]));
                    }
                    match l2.lobby_state {
                        LobbyStateV::ChampSelect(cs2) => {
                            match l.lobby_state {
                                LobbyStateV::ChampSelect(cs) => {
                                    assert forall|q: u128|
                                        #[trigger] cs2.selected_champs.contains_key(q)
                                        <==> is_member(teams2, PlayerId(q)) by {
                                        if q != pid.0 {
                                            assert(cs2.selected_champs.contains_key(q)
                                                <==> cs.selected_champs.contains_key(q));
                                            assert(occ(teams2, PlayerId(q)) == occ(
                                                l.players,
                                                PlayerId(q),
                                            ));
                                        } else {
                                            assert(occ(teams2, pid) == 0);
                                        }
                                    }
                                },
                                _ => {
                                    assert(false);
                                },
                            }
                        },
                        _ => {},
                    }
                }
                assert forall|k: u128|
                    #[trigger] s2.lobbies.contains_key(k) && k != lid.0 implies lobby_ok(
                    s2,
                    k,
                ) by {
                    assert(lobby_ok(s, k));
                    let lk = s2.lobbies[k];
                    assert forall|t: int, i: int|
                        0 <= t < lk.players.len() && 0 <= i < lk.players[t].len() implies member_entry_ok(
                        s2,
                        k,
                        #[trigger] lk.players[t][i],
                    ) by {
                        let p = lk.players[t][i];
                        assert(member_entry_ok(s, k, p));
                        assert(p != pid);
                    }
                }
                assert forall|k: u128| #[trigger] s2.players.contains_key(k) implies player_ok(
                    s2,
                    k,
                ) by {
                    assert(player_ok(s, k));
                    if k != pid.0 {
                        let pk = s.players[k];
                        match pk.in_lobby {
                            Some(lidk) => {
                                if lidk.0 == lid.0 {
                                    assert(occ(teams2, PlayerId(k)) == occ(
                                        l.players,
                                        PlayerId(k),
                                    ));
                                }
                            },
                            None => {},
                        }
                    }
                }
                assert(crate::model::servers_ok(s2)) by {
                    assert((l2.lobby_state is InGame) <==> (l.lobby_state is InGame));
                }
            }
        },
    }
}

/// Switching a player to another team keeps the invariant.
pub proof fn lemma_inv_switch_team(s: ServerV, pid: PlayerId, target: PlayerId, team: crate::types::Team)
    requires
        inv(s),
    ensures
        inv(crate::model::switch_team_spec(s, pid, target, team).0),
{
    if s.players.contains_key(pid.0) && s.players[pid.0].in_lobby is Some {
        let lid = s.players[pid.0].in_lobby->Some_0;
        if s.lobbies.contains_key(lid.0) {
            let l = s.lobbies[lid.0];
            if l.lobby_state is Normal && !(!l.settings.players_can_change_team && l.leader
                != pid) && !(target != pid && l.leader != pid) && team.0
                < l.settings.team_count && l.players[team.0 as int].len()
                < l.settings.player_limit_per_team && is_member(l.players, target) {
                let teams = l.players;
                crate::teams::lemma_remove_player(teams, target);
                let teams2 = crate::teams::remove_player(teams, target);
                let tb = team.0 as int;
                let teams3 = teams2.update(tb, teams2[tb].push(target));
                assert forall|q: PlayerId| #[trigger] occ(teams3, q) == occ(teams, q) by {
                    crate::teams::lemma_occ_update(teams2, tb, teams2[tb].push(target), q);
                    assert(teams2[tb].push(target).drop_last() =~= teams2[tb]);
                }
                crate::teams::lemma_occ_update(teams2, tb, teams2[tb].push(target), target);
                let t = crate::teams::team_of(teams, target);
                assert forall|tt: int|
                    0 <= tt < teams3.len() implies (#[trigger] teams3[tt]).len()
                    <= l.settings.player_limit_per_team by {
                    if tt != tb && tt != t {
                        assert(teams3[tt] == teams[tt]);
                    }
                }
                assert(occ(teams3, l.leader) == occ(teams, l.leader));
                lemma_inv_replace_lobby(
                    s,
                    lid.0,
                    crate::types::LobbyV { players: teams3, ..l },
                );
            }
        }
    }
}

/// Swapping two players' slots keeps the invariant.
pub proof fn lemma_inv_switch_places(s: ServerV, pid: PlayerId, a: PlayerId, b: PlayerId)
    requires
        inv(s),
    ensures
        inv(crate::model::switch_places_spec(s, pid, a, b).0),
{
    if s.players.contains_key(pid.0) && s.players[pid.0].in_lobby is Some {
        let lid = s.players[pid.0].in_lobby->Some_0;
        if s.lobbies.contains_key(lid.0) {
            let l = s.lobbies[lid.0];
            if l.lobby_state is Normal && !(!l.settings.players_can_change_team && l.leader
                != pid) && l.leader == pid && is_member(l.players, a) && is_member(
                l.players,
                b,
            ) {
                let teams = l.players;
                lemma_member_team(teams, a);
                lemma_member_team(teams, b);
                crate::teams::lemma_team_of_member(teams, a);
                crate::teams::lemma_team_of_member(teams, b);
                let ta = crate::teams::team_of(teams, a);
                let tb = crate::teams::team_of(teams, b);
                crate::teams::lemma_idx_in_member(teams[ta], a);
                crate::teams::lemma_idx_in_member(teams[tb], b);
                let ia = crate::teams::idx_in(teams[ta], a);
                let ib = crate::teams::idx_in(teams[tb], b);
                let t1 = teams.update(ta, teams[ta].update(ia, b));
                let t2 = t1.update(tb, t1[tb].update(ib, a));
                assert(t1[tb][ib] == b);
                assert forall|q: PlayerId| #[trigger] occ(t2, q) == occ(teams, q) by {
                    crate::teams::lemma_occ_update(teams, ta, teams[ta].update(ia, b), q);
                    crate::teams::lemma_occ_in_update(teams[ta], ia, b, q);
                    crate::teams::lemma_occ_update(t1, tb, t1[tb].update(ib, a), q);
                    crate::teams::lemma_occ_in_update(t1[tb], ib, a, q);
                }
                crate::teams::lemma_occ_update(teams, ta, teams[ta].update(ia, b), a);
                crate::teams::lemma_occ_in_update(teams[ta], ia, b, a);
                crate::teams::lemma_occ_update(t1, tb, t1[tb].update(ib, a), a);
                crate::teams::lemma_occ_in_update(t1[tb], ib, a, a);
                assert forall|tt: int|
                    0 <= tt < t2.len() implies (#[trigger] t2[tt]).len()
                    <= l.settings.player_limit_per_team by {
                    if tt != ta && tt != tb {
                        assert(t2[tt] == teams[tt]);
                    } else {
                        assert(t2[tt].len() == teams[tt].len());
                    }
                }
                assert(occ(t2, l.leader) == occ(teams, l.leader));
                assert(flat(t2).len() == flat(teams).len()) by {
                    crate::teams::lemma_occ_update(teams, ta, teams[ta].update(ia, b), a);
                    crate::teams::lemma_occ_update(t1, tb, t1[tb].update(ib, a), a);
                }
                lemma_inv_replace_lobby(s, lid.0, crate::types::LobbyV { players: t2, ..l });
            }
        }
    }
}

/// The reshuffle neither loses nor duplicates players, produces exactly
/// the requested number of teams, and respects the new per-team limit.
pub proof fn lemma_reshuffled(
    teams: Seq<Seq<PlayerId>>,
    old_count: int,
    ns: crate::types::LobbySettingsV,
)
    requires
        teams.len() == old_count,
        old_count >= 1,
        ns.team_count >= 1,
        flat(teams).len() <= ns.team_count * ns.player_limit_per_team,
    ensures
        ({
            let r = crate::model::reshuffled(teams, old_count, ns);
            &&& r.len() == ns.team_count
            &&& forall|t: int|
                0 <= t < r.len() ==> (#[trigger] r[t]).len() <= ns.player_limit_per_team
            &&& forall|q: PlayerId| #[trigger] occ(r, q) == occ(teams, q)
            &&& flat(r).len() == flat(teams).len()
        }),
{
    let nc = ns.team_count as int;
    let limit = ns.player_limit_per_team as nat;
    let teams1 = if nc < old_count {
        teams.take(nc)
    } else if nc > old_count {
        crate::teams::pad_teams(teams, nc)
    } else {
        teams
    };
    let d1 = if nc < old_count {
        flat(teams.skip(nc))
    } else {
        Seq::<PlayerId>::empty()
    };
    if nc < old_count {
        assert(teams =~= teams.take(nc) + teams.skip(nc));
        crate::teams::lemma_flat_concat(teams.take(nc), teams.skip(nc));
        assert(flat(teams) == flat(teams1) + d1);
    } else if nc > old_count {
        crate::teams::lemma_pad_teams(teams, nc);
    }
    assert(teams1.len() == nc);
    assert(flat(teams1).len() + d1.len() == flat(teams).len()) by {
        if nc < old_count {
        } else {
            assert(flat(teams1) == flat(teams));
        }
    }
    let teams2 = crate::teams::trim_all(teams1, limit);
    let d2 = crate::teams::tails_of(teams1, limit);
    crate::teams::lemma_trim_all(teams1, limit, PlayerId(0));
    let d = d1 + d2;
    assert(flat(teams2).len() + d.len() == flat(teams).len());
    crate::teams::lemma_place_all(teams2, d, PlayerId(0));
    crate::teams::lemma_place_all_limit(teams2, d, limit);
    let r = crate::model::reshuffled(teams, old_count, ns);
    assert(r == crate::teams::place_all(teams2, d));
    assert forall|q: PlayerId| #[trigger] occ(r, q) == occ(teams, q) by {
        crate::teams::lemma_place_all(teams2, d, q);
        crate::teams::lemma_trim_all(teams1, limit, q);
        crate::teams::lemma_occ_in_concat(d1, d2, q);
        if nc < old_count {
            crate::teams::lemma_occ_in_concat(flat(teams1), d1, q);
        } else {
            assert(occ(teams1, q) == occ(teams, q));
        }
    }
}

/// Applying new settings keeps the invariant.
pub proof fn lemma_inv_update_settings(s: ServerV, pid: PlayerId, ns: crate::types::LobbySettingsV)
    requires
        inv(s),
    ensures
        inv(crate::model::update_settings_spec(s, pid, ns).0),
{
    if s.players.contains_key(pid.0) && s.players[pid.0].in_lobby is Some {
        let lid = s.players[pid.0].in_lobby->Some_0;
        if s.lobbies.contains_key(lid.0) {
            let l = s.lobbies[lid.0];
            if l.lobby_state is Normal && l.leader == pid && ns.name.len() != 0
                && !crate::textnum::all_whitespace(ns.name) && ns.map_name == "Default"@
                && ns.team_count >= 1 && crate::model::lobby_capacity(ns) <= usize::MAX as int
                && flat(l.players).len() <= crate::model::lobby_capacity(ns) && ns
                != l.settings {
                let teams = l.players;
                lemma_reshuffled(teams, l.settings.team_count as int, ns);
                let teams3 = crate::model::reshuffled(teams, l.settings.team_count as int, ns);
                assert(ns.player_limit_per_team >= 1) by {
                    if ns.player_limit_per_team == 0 {
                        assert(ns.team_count * ns.player_limit_per_team == 0)
                            by (nonlinear_arith)
                            requires
                                ns.player_limit_per_team == 0,
                        ;
                        assert(flat(teams).len() >= 1);
                    }
                }
                assert(occ(teams3, l.leader) == occ(teams, l.leader));
                lemma_inv_replace_lobby(
                    s,
                    lid.0,
                    crate::types::LobbyV { settings: ns, players: teams3, ..l },
                );
            }
        }
    }
}

/// Entering champion selection keeps the invariant.
pub proof fn lemma_inv_enter_champ_select(s: ServerV, pid: PlayerId)
    requires
        inv(s),
    ensures
        inv(crate::model::enter_champ_select_spec(s, pid).0),
{
    if s.players.contains_key(pid.0) && s.players[pid.0].in_lobby is Some {
        let lid = s.players[pid.0].in_lobby->Some_0;
        if s.lobbies.contains_key(lid.0) {
            let l = s.lobbies[lid.0];
            if l.lobby_state is Normal && l.leader == pid {
                let sel = crate::teams::init_selected(
                    flat(l.players),
                    None::<crate::types::ChampionSelectionV>,
                );
                assert forall|q: u128| #[trigger] sel.contains_key(q) <==> is_member(
                    l.players,
                    PlayerId(q),
                ) by {
                    crate::teams::lemma_init_selected_dom(
                        flat(l.players),
                        None::<crate::types::ChampionSelectionV>,
                        q,
                    );
                    crate::teams::lemma_occ_in_contains(flat(l.players), PlayerId(q));
                }
                let cs = crate::types::ChampSelectStateV {
                    available_champs: crate::textnum::champ_catalog(),
                    selected_champs: sel,
                };
                lemma_inv_replace_lobby(
                    s,
                    lid.0,
                    crate::types::LobbyV {
                        lobby_state: crate::types::LobbyStateV::ChampSelect(cs),
                        ..l
                    },
                );
            }
        }
    }
}

/// A member of a lobby in champion selection has an entry in the table.
pub proof fn lemma_member_has_entry(s: ServerV, lid: u128, pid: PlayerId)
    requires
        inv(s),
        s.players.contains_key(pid.0),
        s.players[pid.0].in_lobby == Some(LobbyId(lid)),
        s.lobbies.contains_key(lid),
        s.lobbies[lid].lobby_state is ChampSelect,
    ensures
        s.lobbies[lid].lobby_state->ChampSelect_0.selected_champs.contains_key(pid.0),
{
    assert(player_ok(s, pid.0));
    assert(lobby_ok(s, lid));
    assert(is_member(s.lobbies[lid].players, pid));
}

/// Recording one member's champion choice or lock keeps the invariant:
/// the table's keys do not change.
pub proof fn lemma_inv_set_selection(
    s: ServerV,
    lid: u128,
    pid: PlayerId,
    sel: Option<crate::types::ChampionSelectionV>,
)
    requires
        inv(s),
        s.players.contains_key(pid.0),
        s.players[pid.0].in_lobby == Some(LobbyId(lid)),
        s.lobbies.contains_key(lid),
        s.lobbies[lid].lobby_state is ChampSelect,
    ensures
        ({
            let l = s.lobbies[lid];
            let cs = l.lobby_state->ChampSelect_0;
            let cs2 = crate::types::ChampSelectStateV {
                selected_champs: cs.selected_champs.insert(pid.0, sel),
                ..cs
            };
            inv(
                ServerV {
                    lobbies: s.lobbies.insert(
                        lid,
                        crate::types::LobbyV {
                            lobby_state: crate::types::LobbyStateV::ChampSelect(cs2),
                            ..l
                        },
                    ),
                    ..s
                },
            )
        }),
{
    let l = s.lobbies[lid];
    let cs = l.lobby_state->ChampSelect_0;
    let cs2 = crate::types::ChampSelectStateV {
        selected_champs: cs.selected_champs.insert(pid.0, sel),
        ..cs
    };
    assert(player_ok(s, pid.0));
    assert(lobby_ok(s, lid));
    assert(is_member(l.players, pid));
    assert forall|q: u128| #[trigger] cs2.selected_champs.contains_key(q) <==> is_member(
        l.players,
        PlayerId(q),
    ) by {
        assert(cs.selected_champs.contains_key(q) <==> is_member(l.players, PlayerId(q)));
    }
    lemma_inv_replace_lobby(
        s,
        lid,
        crate::types::LobbyV { lobby_state: crate::types::LobbyStateV::ChampSelect(cs2), ..l },
    );
}

/// Choosing a champion keeps the invariant.
pub proof fn lemma_inv_select_champion(s: ServerV, pid: PlayerId, c: Seq<char>)
    requires
        inv(s),
    ensures
        inv(crate::model::select_champion_spec(s, pid, c).0),
{
    if s.players.contains_key(pid.0) && s.players[pid.0].in_lobby is Some {
        let lid = s.players[pid.0].in_lobby->Some_0;
        if s.lobbies.contains_key(lid.0) {
            let l = s.lobbies[lid.0];
            match l.lobby_state {
                crate::types::LobbyStateV::ChampSelect(cs) => {
                    if cs.available_champs.contains(c) && !crate::model::is_locked(
                        cs.selected_champs[pid.0],
                    ) {
                        lemma_inv_set_selection(
                            s,
                            lid.0,
                            pid,
                            Some(crate::types::ChampionSelectionV { champion: c, locked: false }),
                        );
                    }
                },
                _ => {},
            }
        }
    }
}

/// Evacuating any list of players keeps the invariant.
pub proof fn lemma_inv_evacuate(s: ServerV, ms: Seq<PlayerId>)
    requires
        inv(s),
    ensures
        inv(crate::model::evacuate_list(s, ms).0),
    decreases ms.len(),
{
    if ms.len() > 0 {
        lemma_inv_evacuate(s, ms.drop_last());
        lemma_inv_player_left(crate::model::evacuate_list(s, ms.drop_last()).0, ms.last());
    }
}

/// The free-port search returns an unused port of the configured range.
pub proof fn lemma_find_free_from(s: ServerV, p: int)
    requires
        s.port_start <= p,
    ensures
        match crate::model::find_free_from(s, p) {
            Some(q) => p <= q <= s.port_end && !crate::model::port_used(s, q)
                && s.port_start <= q,
            None => true,
        },
    decreases s.port_end + 1 - p,
{
    if p > s.port_end {
    } else if !crate::model::port_used(s, p as u16) {
    } else {
        lemma_find_free_from(s, p + 1);
    }
}

/// Dropping a dead game server's handle keeps the invariant.
pub proof fn lemma_inv_drop_handle(s: ServerV, lid: LobbyId)
    requires
        inv(s),
    ensures
        inv(crate::model::drop_handle(s, lid)),
{
    let s2 = crate::model::drop_handle(s, lid);
    assert forall|k: u128| #[trigger] s2.lobbies.contains_key(k) implies lobby_ok(s2, k) by {
        assert(lobby_ok(s, k));
        let lk = s2.lobbies[k];
        assert forall|t: int, i: int|
            0 <= t < lk.players.len() && 0 <= i < lk.players[t].len() implies member_entry_ok(
            s2,
            k,
            #[trigger] lk.players[t][i],
        ) by {
            assert(member_entry_ok(s, k, lk.players[t][i]));
        }
    }
    assert forall|k: u128| #[trigger] s2.players.contains_key(k) implies player_ok(s2, k) by {
        assert(player_ok(s, k));
    }
}

/// Launching a game server keeps the invariant.
pub proof fn lemma_inv_start_game(s: ServerV, lid: LobbyId, token: u128)
    requires
        inv(s),
    ensures
        inv(crate::model::start_game_spec(s, lid, token).0),
{
    if s.lobbies.contains_key(lid.0) {
        let l = s.lobbies[lid.0];
        match l.lobby_state {
            crate::types::LobbyStateV::ChampSelect(cs) => {
                match crate::model::find_free_port(s) {
                    None => {
                        lemma_inv_evacuate(s, flat(l.players));
                    },
                    Some(port) => {
                        lemma_find_free_from(s, s.port_start as int);
                        let l2 = crate::types::LobbyV {
                            lobby_state: crate::types::LobbyStateV::InGame,
                            ..l
                        };
                        let s2 = ServerV {
                            lobbies: s.lobbies.insert(lid.0, l2),
                            game_servers: s.game_servers.insert(lid.0, port),
                            ..s
                        };
                        assert forall|k: u128| #[trigger] s2.lobbies.contains_key(k) implies lobby_ok(
                            s2,
                            k,
                        ) by {
                            assert(lobby_ok(s, k));
                            let lk = s2.lobbies[k];
                            assert forall|t: int, i: int|
                                0 <= t < lk.players.len() && 0 <= i
                                    < lk.players[t].len() implies member_entry_ok(
                                s2,
                                k,
                                #[trigger] lk.players[t][i],
                            ) by {
                                if k == lid.0 {
                                    assert(member_entry_ok(s, k, l.players[t][i]));
                                } else {
                                    assert(member_entry_ok(s, k, lk.players[t][i]));
                                }
                            }
                        }
                        assert forall|k: u128| #[trigger] s2.players.contains_key(k) implies player_ok(
                            s2,
                            k,
                        ) by {
                            assert(player_ok(s, k));
                        }
                        assert(crate::model::servers_ok(s2)) by {
                            assert forall|k1: u128, k2: u128|
                                #[trigger] s2.game_servers.contains_key(k1)
                                    && #[trigger] s2.game_servers.contains_key(k2) && k1
                                    != k2 implies s2.game_servers[k1] != s2.game_servers[k2] by {
                                if k1 == lid.0 {
                                    assert(s.game_servers.contains_key(k2));
                                    assert(crate::model::port_used(s, s.game_servers[k2]));
                                    assert(!crate::model::port_used(s, port));
                                } else if k2 == lid.0 {
                                    assert(s.game_servers.contains_key(k1));
                                    assert(crate::model::port_used(s, s.game_servers[k1]));
                                    assert(!crate::model::port_used(s, port));
                                }
                            }
                        }
                    },
                }
            },
            _ => {},
        }
    }
}

/// Locking a champion choice (and the launch it may trigger) keeps the
/// invariant.
pub proof fn lemma_inv_lock(s: ServerV, pid: PlayerId, token: u128)
    requires
        inv(s),
    ensures
        inv(crate::model::lock_champ_selection_spec(s, pid, token).0),
{
    if s.players.contains_key(pid.0) && s.players[pid.0].in_lobby is Some {
        let lid = s.players[pid.0].in_lobby->Some_0;
        if s.lobbies.contains_key(lid.0) {
            let l = s.lobbies[lid.0];
            match l.lobby_state {
                crate::types::LobbyStateV::ChampSelect(cs) => {
                    if !(cs.selected_champs[pid.0] is None) {
                        lemma_inv_set_selection(
                            s,
                            lid.0,
                            pid,
                            Some(
                                crate::types::ChampionSelectionV {
                                    champion: crate::model::sel_champ(cs.selected_champs[pid.0]),
                                    locked: true,
                                },
                            ),
                        );
                        let cs2 = crate::types::ChampSelectStateV {
                            selected_champs: cs.selected_champs.insert(
                                pid.0,
                                Some(
                                    crate::types::ChampionSelectionV {
                                        champion: crate::model::sel_champ(
                                            cs.selected_champs[pid.0],
                                        ),
                                        locked: true,
                                    },
                                ),
                            ),
                            ..cs
                        };
                        let l2 = crate::types::LobbyV {
                            lobby_state: crate::types::LobbyStateV::ChampSelect(cs2),
                            ..l
                        };
                        let s1 = ServerV { lobbies: s.lobbies.insert(lid.0, l2), ..s };
                        if crate::model::all_locked(cs2.selected_champs) {
                            lemma_inv_start_game(s1, lid, token);
                        }
                    }
                },
                _ => {},
            }
        }
    }
}

/// A game server's death (clean or not) keeps the invariant.
pub proof fn lemma_inv_game_server_exited(s: ServerV, lid: LobbyId, success: bool)
    requires
        inv(s),
    ensures
        inv(crate::model::game_server_exited_spec(s, lid, success).0),
{
    if !s.lobbies.contains_key(lid.0) {
        lemma_inv_drop_handle(s, lid);
    } else {
        let ms = flat(s.lobbies[lid.0].players);
        lemma_inv_evacuate(s, ms);
        lemma_inv_drop_handle(crate::model::evacuate_list(s, ms).0, lid);
    }
}

/// Shutdown keeps the invariant.
pub proof fn lemma_inv_shutdown(s: ServerV)
    requires
        inv(s),
    ensures
        inv(crate::model::shutdown_spec(s).0),
{
    let s2 = crate::model::shutdown_spec(s).0;
    assert forall|k: u128| #[trigger] s2.lobbies.contains_key(k) implies lobby_ok(s2, k) by {
        assert(lobby_ok(s, k));
        let lk = s2.lobbies[k];
        assert forall|t: int, i: int|
            0 <= t < lk.players.len() && 0 <= i < lk.players[t].len() implies member_entry_ok(
            s2,
            k,
            #[trigger] lk.players[t][i],
        ) by {
            assert(member_entry_ok(s, k, lk.players[t][i]));
        }
    }
    assert forall|k: u128| #[trigger] s2.players.contains_key(k) implies player_ok(s2, k) by {
        assert(player_ok(s, k));
    }
}

/// Joining a lobby and then leaving it returns the engine to exactly the
/// state it was in before the join. (The lobby existed before the join, so
/// it is never deleted by the leave.)
pub proof fn lemma_join_then_leave(s: ServerV, pid: PlayerId, lid: LobbyId)
    requires
        inv(s),
        s.players.contains_key(pid.0),
        s.players[pid.0].in_lobby is None,
        s.lobbies.contains_key(lid.0),
        s.lobbies[lid.0].lobby_state is Normal,
        s.lobbies[lid.0].settings.lobby_is_open,
        flat(s.lobbies[lid.0].players).len() < crate::model::lobby_capacity(
            s.lobbies[lid.0].settings,
        ),
    ensures
        crate::model::leave_lobby_spec(crate::model::join_lobby_spec(s, pid, lid).0, pid).0
            == s,
{
    let l = s.lobbies[lid.0];
    let teams = l.players;
    let t = crate::teams::smallest_team(teams);
    crate::teams::lemma_smallest_team(teams);
    lemma_free_player_not_member(s, lid.0, pid);
    crate::teams::lemma_member_team(teams, pid);
    let teams1 = teams.update(t, teams[t].push(pid));
    let s1 = crate::model::join_lobby_spec(s, pid, lid).0;
    assert(s1.lobbies[lid.0].players == teams1);
    // the joiner sits exactly at the end of team `t`
    assert(teams1[t][teams[t].len() as int] == pid);
    assert forall|j: int| 0 <= j < t implies !(#[trigger] teams1[j]).contains(pid) by {
        assert(teams1[j] == teams[j]);
    }
    crate::teams::lemma_team_of_at(teams1, pid, t);
    assert forall|j: int| 0 <= j < teams[t].len() implies teams1[t][j] != pid by {
        assert(teams1[t][j] == teams[t][j]);
        if teams[t][j] == pid {
            assert(teams[t].contains(pid));
        }
    }
    crate::teams::lemma_idx_in_at(teams1[t], pid, teams[t].len() as int);
    // occurrence count after the join
    crate::teams::lemma_occ_update(teams, t, teams[t].push(pid), pid);
    assert(teams[t].push(pid).drop_last() =~= teams[t]);
    crate::teams::lemma_occ_in_contains(teams[t], pid);
    assert(occ(teams1, pid) == 1);
    assert(is_member(teams1, pid));
    // the leave removes exactly the pushed slot
    let teams2 = crate::teams::remove_player(teams1, pid);
    assert(teams1[t].remove(teams[t].len() as int) =~= teams[t]);
    assert(teams2 =~= teams);
    crate::teams::lemma_remove_player(teams1, pid);
    assert(flat(teams2).len() == flat(teams).len());
    assert(flat(teams).len() >= 1);
    // the leader was a member before, so it is not the joiner
    assert(l.leader != pid) by {
        if l.leader == pid {
            assert(occ(teams, pid) == 0);
            assert(is_member(teams, l.leader));
        }
    }
    let s2 = crate::model::leave_lobby_spec(s1, pid).0;
    assert(s2.lobbies[lid.0] =~~= l);
    assert(s2.lobbies =~~= s.lobbies) by {
        assert(s2.lobbies == s1.lobbies.insert(lid.0, s2.lobbies[lid.0]));
    }
    assert(s2.players =~~= s.players) by {
        assert(s2.players[pid.0] =~~= s.players[pid.0]);
    }
    assert(s2 =~~= s);
}

/// Replacing a lobby's settings with values equal to the current ones is a
/// no-op: the state is unchanged and nothing is broadcast. (The current
/// settings of a reachable lobby pass the validation guards; the premises
/// restate that.)
pub proof fn lemma_update_settings_noop(s: ServerV, pid: PlayerId, ns: crate::types::LobbySettingsV)
    requires
        inv(s),
        s.players.contains_key(pid.0),
        s.players[pid.0].in_lobby is Some,
        s.lobbies.contains_key(s.players[pid.0].in_lobby->Some_0.0),
        s.lobbies[s.players[pid.0].in_lobby->Some_0.0].lobby_state is Normal,
        s.lobbies[s.players[pid.0].in_lobby->Some_0.0].leader == pid,
        ns == s.lobbies[s.players[pid.0].in_lobby->Some_0.0].settings,
        ns.name.len() != 0,
        !crate::textnum::all_whitespace(ns.name),
        ns.map_name == "Default"@,
    ensures
        crate::model::update_settings_spec(s, pid, ns) == (s, Seq::<ActionV>::empty()),
{
    let lid = s.players[pid.0].in_lobby->Some_0;
    let l = s.lobbies[lid.0];
    assert(lobby_ok(s, lid.0));
    crate::teams::lemma_flat_len_upper(l.players, l.settings.player_limit_per_team as nat);
    assert(flat(l.players).len() <= l.players.len() * l.settings.player_limit_per_team);
    assert(l.players.len() == l.settings.team_count);
}

/// Swapping two players' slots twice is the identity.
pub proof fn lemma_switch_places_twice(s: ServerV, pid: PlayerId, a: PlayerId, b: PlayerId)
    requires
        inv(s),
        s.players.contains_key(pid.0),
        s.players[pid.0].in_lobby is Some,
        s.lobbies.contains_key(s.players[pid.0].in_lobby->Some_0.0),
        s.lobbies[s.players[pid.0].in_lobby->Some_0.0].lobby_state is Normal,
        s.lobbies[s.players[pid.0].in_lobby->Some_0.0].leader == pid,
        is_member(s.lobbies[s.players[pid.0].in_lobby->Some_0.0].players, a),
        is_member(s.lobbies[s.players[pid.0].in_lobby->Some_0.0].players, b),
    ensures
        crate::model::switch_places_spec(
            crate::model::switch_places_spec(s, pid, a, b).0,
            pid,
            a,
            b,
        ).0 == s,
{
    let lid = s.players[pid.0].in_lobby->Some_0;
    let l = s.lobbies[lid.0];
    let teams = l.players;
    assert(lobby_ok(s, lid.0));
    lemma_member_team(teams, a);
    lemma_member_team(teams, b);
    crate::teams::lemma_team_of_member(teams, a);
    crate::teams::lemma_team_of_member(teams, b);
    let ta = crate::teams::team_of(teams, a);
    let tb = crate::teams::team_of(teams, b);
    crate::teams::lemma_idx_in_member(teams[ta], a);
    crate::teams::lemma_idx_in_member(teams[tb], b);
    let ia = crate::teams::idx_in(teams[ta], a);
    let ib = crate::teams::idx_in(teams[tb], b);
    // both players occur exactly once
    assert(occ(teams, a) == 1 && occ(teams, b) == 1) by {
        assert(member_entry_ok(s, lid.0, teams[ta][ia]));
        assert(player_ok(s, a.0));
        assert(member_entry_ok(s, lid.0, teams[tb][ib]));
        assert(player_ok(s, b.0));
    }
    crate::teams::lemma_occ_unique(teams, a, ta, ia);
    crate::teams::lemma_occ_unique(teams, b, tb, ib);
    let t1 = teams.update(ta, teams[ta].update(ia, b));
    let t2 = t1.update(tb, t1[tb].update(ib, a));
    let s1 = crate::model::switch_places_spec(s, pid, a, b).0;
    assert(s1.lobbies[lid.0].players == t2);
    if a == b {
        assert(t1 =~~= teams) by {
            assert(teams[ta].update(ia, b) =~= teams[ta]);
        }
        assert(t2 =~~= teams) by {
            assert(t1[tb].update(ib, a) =~= t1[tb]);
        }
        assert(s1.lobbies[lid.0] =~~= l);
        assert(s1.lobbies =~~= s.lobbies);
        assert(s1 =~~= s);
        let s2 = crate::model::switch_places_spec(s1, pid, a, b).0;
        assert(s2 == crate::model::switch_places_spec(s, pid, a, b).0);
        assert(s2 =~~= s);
    } else {
        // distinct players occupy distinct slots
        assert((ta != tb) || (ia != ib));
        // where a and b sit after the first swap
        assert(t2[tb][ib] == a);
        assert(t1[tb][ib] == b) by {
            if tb == ta {
                assert(ib != ia);
            }
        }
        assert(t2[ta][ia] == b) by {
            if tb == ta {
                assert(t2[ta] == t1[ta].update(ib, a));
            } else {
                assert(t2[ta] == t1[ta]);
            }
        }
        // occurrence counts are preserved by the double update
        assert forall|q: PlayerId| #[trigger] occ(t2, q) == occ(teams, q) by {
            crate::teams::lemma_occ_update(teams, ta, teams[ta].update(ia, b), q);
            crate::teams::lemma_occ_in_update(teams[ta], ia, b, q);
            crate::teams::lemma_occ_update(t1, tb, t1[tb].update(ib, a), q);
            crate::teams::lemma_occ_in_update(t1[tb], ib, a, q);
        }
        assert(is_member(t2, a) && is_member(t2, b));
        // the second swap finds a at (tb, ib) and b at (ta, ia)
        crate::teams::lemma_occ_unique(t2, a, tb, ib);
        crate::teams::lemma_occ_unique(t2, b, ta, ia);
        let u1 = t2.update(tb, t2[tb].update(ib, b));
        let u2 = u1.update(ta, u1[ta].update(ia, a));
        let s2 = crate::model::switch_places_spec(s1, pid, a, b).0;
        assert(s1.players == s.players);
        assert(s2.lobbies[lid.0].players == u2);
        assert(u2 =~~= teams) by {
            assert forall|x: int| 0 <= x < teams.len() implies u2[x] =~= teams[x] by {
                if x == ta && x == tb {
                    assert(u2[x] =~= teams[x]);
                } else if x == ta {
                    assert(u2[x] =~= teams[x]);
                } else if x == tb {
                    assert(u2[x] =~= teams[x]);
                }
            }
        }
        assert(s2.lobbies[lid.0] =~~= l);
        assert(s2.lobbies =~~= s.lobbies) by {
            assert(s2.lobbies == s1.lobbies.insert(lid.0, s2.lobbies[lid.0]));
        }
        assert(s2 =~~= s);
    }
}

/// Losing a connection (leave, then forget the player) keeps the
/// invariant.
pub proof fn lemma_inv_connection_lost(s: ServerV, pid: PlayerId)
    requires
        inv(s),
    ensures
        inv(crate::model::connection_lost_spec(s, pid).0),
{
    lemma_inv_player_left(s, pid);
    let s1 = crate::model::player_left_spec(s, pid).0;
    let s2 = crate::model::connection_lost_spec(s, pid).0;
    assert(s2.lobbies == s1.lobbies && s2.lobby_order == s1.lobby_order && s2.game_servers
        == s1.game_servers);
    assert forall|k: u128| #[trigger] s2.lobbies.contains_key(k) implies lobby_ok(s2, k) by {
        assert(lobby_ok(s1, k));
        let lk = s1.lobbies[k];
        assert forall|t: int, i: int|
            0 <= t < lk.players.len() && 0 <= i < lk.players[t].len() implies member_entry_ok(
            s2,
            k,
            #[trigger] lk.players[t][i],
        ) by {
            let p = lk.players[t][i];
            assert(member_entry_ok(s1, k, p));
            if p == pid {
                assert(player_ok(s1, pid.0));
                assert(s1.players[pid.0].in_lobby == Some(LobbyId(k)));
                assert(s1.players[pid.0].in_lobby is None);
            }
        }
    }
    assert forall|k: u128| #[trigger] s2.players.contains_key(k) implies player_ok(s2, k) by {
        assert(player_ok(s1, k));
    }
    if s1.player_order.contains(pid.0) {
        lemma_order_remove(s1.player_order, pid.0);
    } else {
        assert(!s1.players.contains_key(pid.0));
    }
    assert(crate::model::orders_ok(s2));
    assert(crate::model::servers_ok(s2));
}

/// Updating a display name keeps the invariant.
pub proof fn lemma_inv_player_name_updated(s: ServerV, pid: PlayerId, name: Seq<char>)
    requires
        inv(s),
    ensures
        inv(player_name_updated_spec(s, pid, name)),
{
    if s.players.contains_key(pid.0) {
        let s2 = player_name_updated_spec(s, pid, name);
        assert forall|k: u128| #[trigger] s2.lobbies.contains_key(k) implies crate::model::lobby_ok(
            s2,
            k,
        ) by {
            assert(crate::model::lobby_ok(s, k));
            let l = s2.lobbies[k];
            assert forall|t: int, i: int|
                0 <= t < l.players.len() && 0 <= i < l.players[t].len() implies crate::model::member_entry_ok(
                s2,
                k,
                #[trigger] l.players[t][i],
            ) by {
                assert(crate::model::member_entry_ok(s, k, l.players[t][i]));
            }
        }
        assert forall|k: u128| #[trigger] s2.players.contains_key(k) implies crate::model::player_ok(
            s2,
            k,
        ) by {
            assert(crate::model::player_ok(s, k));
        }
    }
}

/// Every client request keeps the invariant: after any message, every
/// member points at its lobby and sits in exactly one slot of it, teams
/// match the settings in number and size, every lobby keeps its leader
/// among at least one member, the selection table's keys are the members,
/// and game-server handles are one per in-game lobby with distinct ports.
pub proof fn lemma_inv_handle_message(
    s: ServerV,
    pid: PlayerId,
    msg: crate::types::MessageFromPlayer,
    minted: u128,
)
    requires
        inv(s),
    ensures
        inv(crate::model::handle_message_spec(s, pid, msg, minted).0),
{
    if s.players.contains_key(pid.0) {
        match msg {
            crate::types::MessageFromPlayer::InitialHandshake { .. } => {},
            crate::types::MessageFromPlayer::CreateLobby => {
                lemma_inv_create(s, pid, minted);
            },
            crate::types::MessageFromPlayer::JoinLobby(lid) => {
                lemma_inv_join(s, pid, lid);
            },
            crate::types::MessageFromPlayer::LeaveLobby => {
                lemma_inv_player_left(s, pid);
            },
            crate::types::MessageFromPlayer::SwitchTeam(target, team) => {
                lemma_inv_switch_team(s, pid, target, team);
            },
            crate::types::MessageFromPlayer::SwitchPlaces(a, b) => {
                lemma_inv_switch_places(s, pid, a, b);
            },
            crate::types::MessageFromPlayer::GetLobbyInfo(_) => {},
            crate::types::MessageFromPlayer::GetLobbyList => {},
            crate::types::MessageFromPlayer::GetPlayerInfo(_) => {},
            crate::types::MessageFromPlayer::KickPlayer(target) => {
                lemma_inv_player_left(s, target);
            },
            crate::types::MessageFromPlayer::UpdateSettings(ns) => {
                lemma_inv_update_settings(s, pid, ns.deep_view());
            },
            crate::types::MessageFromPlayer::EnterChampSelect => {
                lemma_inv_enter_champ_select(s, pid);
            },
            crate::types::MessageFromPlayer::SelectChampion(c) => {
                lemma_inv_select_champion(s, pid, c@);
            },
            crate::types::MessageFromPlayer::LockChampSelection => {
                lemma_inv_lock(s, pid, minted);
            },
            crate::types::MessageFromPlayer::StartGame => {},
            crate::types::MessageFromPlayer::Disconnecting => {},
        }
    }
}

/// Every event of the loop keeps the invariant: the service invariants
/// hold of every reachable state.
pub proof fn lemma_inv_handle_event(s: ServerV, ev: crate::types::Event, minted: u128)
    requires
        inv(s),
    ensures
        inv(crate::model::handle_event_spec(s, ev, minted).0),
{
    match ev {
        crate::types::Event::PlayerNameUpdated(pid, name) => {
            lemma_inv_player_name_updated(s, pid, name@);
        },
        crate::types::Event::MessageReceived(pid, msg) => {
            lemma_inv_handle_message(s, pid, msg, minted);
        },
        crate::types::Event::ConnectionLost(pid) => {
            lemma_inv_connection_lost(s, pid);
        },
        crate::types::Event::GameTokensGenerated(_) => {},
        crate::types::Event::GameServerExited(lid, success) => {
            lemma_inv_game_server_exited(s, lid, success);
        },
        crate::types::Event::Shutdown => {
            lemma_inv_shutdown(s);
        },
    }
}

} // verus!
