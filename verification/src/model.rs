//! The mathematical model of the lobby service.
//!
//! `ServerV` is the ghost image of the whole engine state. For every event
//! the engine can receive there is a transition function here that maps the
//! model and the event to the successor model and the exact list of actions
//! owed to the outside world. The executable engine is proven to produce
//! precisely these results, and the service invariants are proven of these
//! functions.

use vstd::prelude::*;

use crate::idmap::{find_key, unique_keys};
use crate::teams::{
    drop_player, flat, init_selected, is_member, occ, pad_teams, place_all, remove_player,
    smallest_team, tails_of, team_of, idx_in, trim_all,
};
use crate::textnum::{all_whitespace, champ_catalog, default_lobby_name, team_ref};
use crate::types::{
    ActionV, ChampSelectStateV, ChampionSelectionV, Event, LobbyId, LobbySettingsV,
    LobbyShortInfoV, LobbyStateV, LobbyV, MessageFromPlayer, MessageFromServerV, PlayerEntryV,
    PlayerId, PlayerInfoV, PlayerSelectionV, Team,
};

verus! {

/// Ghost image of the whole engine. The two order sequences record
/// insertion order, which fixes listing and broadcast order.
#[verifier::ext_equal]
pub ghost struct ServerV {
    pub lobbies: Map<u128, LobbyV>,
    pub lobby_order: Seq<u128>,
    pub players: Map<u128, PlayerEntryV>,
    pub player_order: Seq<u128>,
    pub game_servers: Map<u128, u16>,
    pub port_start: u16,
    pub port_end: u16,
    pub should_exit: bool,
}

pub type StepV = (ServerV, Seq<ActionV>);

// ---------------------------------------------------------------------
// Invariants
// ---------------------------------------------------------------------

pub open spec fn member_entry_ok(s: ServerV, k: u128, p: PlayerId) -> bool {
    &&& s.players.contains_key(p.0)
    &&& s.players[p.0].in_lobby == Some(LobbyId(k))
}

/// Everything that must hold of a lobby between events: its id matches its
/// key, the team shape follows the settings, the limits hold, the leader is
/// a member, the lobby is inhabited, every member points back at the
/// lobby, and in champion selection the table has exactly the members as
/// keys.
pub open spec fn lobby_ok(s: ServerV, k: u128) -> bool {
    let l = s.lobbies[k];
    &&& l.id == LobbyId(k)
    &&& 1 <= l.settings.team_count
    &&& 1 <= l.settings.player_limit_per_team
    &&& l.settings.team_count * l.settings.player_limit_per_team <= usize::MAX as int
    &&& l.players.len() == l.settings.team_count
    &&& forall|t: int|
        0 <= t < l.players.len() ==> (#[trigger] l.players[t]).len()
            <= l.settings.player_limit_per_team
    &&& flat(l.players).len() >= 1
    &&& is_member(l.players, l.leader)
    &&& forall|t: int, i: int|
        0 <= t < l.players.len() && 0 <= i < l.players[t].len() ==> member_entry_ok(
            s,
            k,
            #[trigger] l.players[t][i],
        )
    &&& match l.lobby_state {
        LobbyStateV::ChampSelect(cs) => forall|q: u128|
            #[trigger] cs.selected_champs.contains_key(q) <==> is_member(l.players, PlayerId(q)),
        _ => true,
    }
}

/// A player's back-reference is accurate: it names an existing lobby in
/// which the player occurs exactly once.
pub open spec fn player_ok(s: ServerV, k: u128) -> bool {
    let pl = s.players[k];
    &&& pl.info.id == PlayerId(k)
    &&& match pl.in_lobby {
        Some(lid) => s.lobbies.contains_key(lid.0) && occ(s.lobbies[lid.0].players, PlayerId(k))
            == 1,
        None => true,
    }
}

/// Game-server handles: one per in-game lobby and only for those, with
/// pairwise-distinct ports from the configured range.
pub open spec fn servers_ok(s: ServerV) -> bool {
    &&& forall|k: u128|
        #[trigger] s.game_servers.contains_key(k) ==> s.lobbies.contains_key(k)
            && s.lobbies[k].lobby_state is InGame && s.port_start <= s.game_servers[k]
            <= s.port_end
    &&& forall|k: u128|
        s.lobbies.contains_key(k) && (#[trigger] s.lobbies[k].lobby_state) is InGame
            ==> s.game_servers.contains_key(k)
    &&& forall|k1: u128, k2: u128|
        #[trigger] s.game_servers.contains_key(k1) && #[trigger] s.game_servers.contains_key(k2)
            && k1 != k2 ==> s.game_servers[k1] != s.game_servers[k2]
}

/// The order sequences list exactly the live keys, each once.
pub open spec fn orders_ok(s: ServerV) -> bool {
    &&& unique_keys(s.lobby_order)
    &&& forall|k: u128| #[trigger] s.lobby_order.contains(k) <==> s.lobbies.contains_key(k)
    &&& unique_keys(s.player_order)
    &&& forall|k: u128| #[trigger] s.player_order.contains(k) <==> s.players.contains_key(k)
}

/// The service invariant, maintained by every transition.
pub open spec fn inv(s: ServerV) -> bool {
    &&& forall|k: u128| #[trigger] s.lobbies.contains_key(k) ==> lobby_ok(s, k)
    &&& forall|k: u128| #[trigger] s.players.contains_key(k) ==> player_ok(s, k)
    &&& servers_ok(s)
    &&& orders_ok(s)
}

// ---------------------------------------------------------------------
// Shared vocabulary of the transitions
// ---------------------------------------------------------------------

pub open spec fn refuse(s: ServerV, pid: PlayerId, reason: Seq<char>) -> StepV {
    (s, seq![ActionV::Send(pid, MessageFromServerV::RequestRefused(reason))])
}

/// A send that the engine only owes if the recipient is still connected.
pub open spec fn send_if_known(s: ServerV, pid: PlayerId, msg: MessageFromServerV) -> Seq<
    ActionV,
> {
    if s.players.contains_key(pid.0) {
        seq![ActionV::Send(pid, msg)]
    } else {
        Seq::empty()
    }
}

pub open spec fn lobby_capacity(st: LobbySettingsV) -> int {
    st.team_count * st.player_limit_per_team
}

/// The lobby browser line of a lobby.
pub open spec fn short_of(l: LobbyV) -> LobbyShortInfoV {
    LobbyShortInfoV {
        id: l.id,
        name: l.settings.name,
        player_count: flat(l.players).len() as usize,
        max_player_count: lobby_capacity(l.settings) as usize,
    }
}

pub open spec fn default_settings(owner: Seq<char>) -> LobbySettingsV {
    LobbySettingsV {
        name: default_lobby_name(owner),
        map_name: "Default"@,
        team_count: 2,
        player_limit_per_team: 5,
        players_can_change_team: true,
        lobby_is_open: true,
    }
}

pub open spec fn sel_champ(o: Option<ChampionSelectionV>) -> Seq<char> {
    match o {
        Some(c) => c.champion,
        None => Seq::empty(),
    }
}

pub open spec fn is_locked(o: Option<ChampionSelectionV>) -> bool {
    match o {
        Some(c) => c.locked,
        None => false,
    }
}

/// Every member of the table has locked a choice.
pub open spec fn all_locked(cs: Map<u128, Option<ChampionSelectionV>>) -> bool {
    forall|k: u128| #[trigger] cs.contains_key(k) ==> is_locked(cs[k])
}

/// Lowest free port of the configured range, scanning from `p` upward.
pub open spec fn find_free_from(s: ServerV, p: int) -> Option<u16>
    decreases s.port_end + 1 - p,
    when p >= s.port_start
{
    if p > s.port_end {
        None
    } else if !port_used(s, p as u16) {
        Some(p as u16)
    } else {
        find_free_from(s, p + 1)
    }
}

pub open spec fn port_used(s: ServerV, p: u16) -> bool {
    exists|k: u128| #[trigger] s.game_servers.contains_key(k) && s.game_servers[k] == p
}

pub open spec fn find_free_port(s: ServerV) -> Option<u16> {
    find_free_from(s, s.port_start as int)
}

/// The roster handed to a launched game server: every team in order, every
/// player with the champion locked for it.
pub open spec fn roster_spec(
    players: Map<u128, PlayerEntryV>,
    teams: Seq<Seq<PlayerId>>,
    sel: Map<u128, Option<ChampionSelectionV>>,
) -> Seq<Seq<PlayerSelectionV>> {
    Seq::new(
        teams.len(),
        |t: int|
            Seq::new(
                teams[t].len(),
                |i: int|
                    PlayerSelectionV {
                        player: players[teams[t][i].0].info,
                        champion: sel_champ(sel[teams[t][i].0]),
                    },
            ),
    )
}

pub open spec fn roster_of(s: ServerV, l: LobbyV, cs: ChampSelectStateV) -> Seq<
    Seq<PlayerSelectionV>,
> {
    roster_spec(s.players, l.players, cs.selected_champs)
}

pub open spec fn ids_of(order: Seq<u128>) -> Seq<PlayerId> {
    order.map_values(|k: u128| PlayerId(k))
}

// ---------------------------------------------------------------------
// The shared player-left-lobby routine
// ---------------------------------------------------------------------

/// Remove a player from the lobby it is in, if any: delete an emptied
/// lobby (stopping its game server), promote a new leader when the leader
/// left, and notify the remaining members.
pub open spec fn player_left_spec(s: ServerV, pid: PlayerId) -> StepV {
    if !s.players.contains_key(pid.0) {
        (s, Seq::empty())
    } else {
        let pl = s.players[pid.0];
        match pl.in_lobby {
            None => (s, Seq::empty()),
            Some(lid) => if !s.lobbies.contains_key(lid.0) {
                (s, Seq::empty())
            } else {
                let l = s.lobbies[lid.0];
                let teams2 = if is_member(l.players, pid) {
                    remove_player(l.players, pid)
                } else {
                    l.players
                };
                let state2 = match l.lobby_state {
                    LobbyStateV::ChampSelect(cs) => LobbyStateV::ChampSelect(
                        ChampSelectStateV {
                            selected_champs: cs.selected_champs.remove(pid.0),
                            ..cs
                        },
                    ),
                    st => st,
                };
                let players2 = s.players.insert(pid.0, PlayerEntryV { in_lobby: None, ..pl });
                if flat(teams2).len() == 0 {
                    let s2 = ServerV {
                        lobbies: s.lobbies.remove(lid.0),
                        lobby_order: s.lobby_order.remove(find_key(s.lobby_order, lid.0)),
                        players: players2,
                        game_servers: s.game_servers.remove(lid.0),
                        ..s
                    };
                    let acts: Seq<ActionV> = if s.game_servers.contains_key(lid.0) {
                        seq![ActionV::StopGameServer(lid)]
                    } else {
                        Seq::empty()
                    };
                    (s2, acts)
                } else {
                    let promoted = l.leader == pid;
                    let leader2 = if promoted {
                        flat(teams2)[0]
                    } else {
                        l.leader
                    };
                    let lacts: Seq<ActionV> = if promoted {
                        seq![
                            ActionV::Broadcast(
                                flat(teams2),
                                MessageFromServerV::LobbyLeaderChanged(leader2),
                            ),
                        ]
                    } else {
                        Seq::empty()
                    };
                    let l2 = LobbyV { leader: leader2, players: teams2, lobby_state: state2, ..l };
                    let s2 = ServerV {
                        lobbies: s.lobbies.insert(lid.0, l2),
                        players: players2,
                        ..s
                    };
                    (
                        s2,
                        lacts + seq![
                            ActionV::Broadcast(
                                flat(teams2),
                                MessageFromServerV::PlayerLeftYourLobby(pid),
                            ),
                        ],
                    )
                }
            },
        }
    }
}

/// Force every listed player out of its lobby, first-in first-out, telling
/// each one; the recovery path when a game server dies.
pub open spec fn evacuate_list(s: ServerV, ms: Seq<PlayerId>) -> StepV
    decreases ms.len(),
{
    if ms.len() == 0 {
        (s, Seq::empty())
    } else {
        let (s1, a1) = evacuate_list(s, ms.drop_last());
        let p = ms.last();
        let (s2, a2) = player_left_spec(s1, p);
        (s2, a1 + send_if_known(s1, p, MessageFromServerV::YouLeftLobby) + a2)
    }
}

// ---------------------------------------------------------------------
// Request handlers
// ---------------------------------------------------------------------

pub open spec fn create_lobby_spec(s: ServerV, pid: PlayerId, minted: u128) -> StepV {
    if !s.players.contains_key(pid.0) {
        (s, Seq::empty())
    } else {
        let pl = s.players[pid.0];
        if pl.in_lobby is Some {
            refuse(s, pid, "You are already in a lobby."@)
        } else if s.lobbies.contains_key(minted) {
            (s, Seq::empty())
        } else {
            let lid = LobbyId(minted);
            let lobby = LobbyV {
                id: lid,
                settings: default_settings(pl.info.name),
                leader: pid,
                players: seq![seq![pid], Seq::<PlayerId>::empty()],
                lobby_state: LobbyStateV::Normal,
            };
            let s2 = ServerV {
                lobbies: s.lobbies.insert(minted, lobby),
                lobby_order: s.lobby_order.push(minted),
                players: s.players.insert(pid.0, PlayerEntryV { in_lobby: Some(lid), ..pl }),
                ..s
            };
            (
                s2,
                seq![
                    ActionV::Send(pid, MessageFromServerV::YouJoinedLobby(lid)),
                    ActionV::Broadcast(
                        drop_player(flat(lobby.players), pid),
                        MessageFromServerV::PlayerJoinedYourLobby(pid),
                    ),
                ],
            )
        }
    }
}

pub open spec fn join_lobby_spec(s: ServerV, pid: PlayerId, lid: LobbyId) -> StepV {
    if !s.players.contains_key(pid.0) {
        (s, Seq::empty())
    } else {
        let pl = s.players[pid.0];
        if pl.in_lobby is Some {
            refuse(s, pid, "You are already in a lobby."@)
        } else if !s.lobbies.contains_key(lid.0) {
            refuse(s, pid, "That lobby does not exist."@)
        } else {
            let l = s.lobbies[lid.0];
            if !(l.lobby_state is Normal) {
                refuse(s, pid, "Lobby is in invalid state."@)
            } else if !l.settings.lobby_is_open {
                refuse(s, pid, "The lobby is closed."@)
            } else if flat(l.players).len() >= lobby_capacity(l.settings) {
                refuse(s, pid, "The lobby is full"@)
            } else {
                let t = smallest_team(l.players);
                let l2 = LobbyV { players: l.players.update(t, l.players[t].push(pid)), ..l };
                let s2 = ServerV {
                    lobbies: s.lobbies.insert(lid.0, l2),
                    players: s.players.insert(pid.0, PlayerEntryV { in_lobby: Some(lid), ..pl }),
                    ..s
                };
                (
                    s2,
                    seq![
                        ActionV::Send(pid, MessageFromServerV::YouJoinedLobby(lid)),
                        ActionV::Broadcast(
                            drop_player(flat(l2.players), pid),
                            MessageFromServerV::PlayerJoinedYourLobby(pid),
                        ),
                    ],
                )
            }
        }
    }
}

pub open spec fn leave_lobby_spec(s: ServerV, pid: PlayerId) -> StepV {
    if !s.players.contains_key(pid.0) {
        (s, Seq::empty())
    } else {
        let (s2, a) = player_left_spec(s, pid);
        (s2, seq![ActionV::Send(pid, MessageFromServerV::YouLeftLobby)] + a)
    }
}

pub open spec fn switch_team_spec(s: ServerV, pid: PlayerId, target: PlayerId, team: Team) -> StepV {
    if !s.players.contains_key(pid.0) {
        (s, Seq::empty())
    } else {
        let pl = s.players[pid.0];
        match pl.in_lobby {
            None => refuse(s, pid, "You are not in a lobby."@),
            Some(lid) => if !s.lobbies.contains_key(lid.0) {
                refuse(s, pid, "That lobby does not exist."@)
            } else {
                let l = s.lobbies[lid.0];
                if !(l.lobby_state is Normal) {
                    refuse(s, pid, "Lobby is in invalid state."@)
                } else if !l.settings.players_can_change_team && l.leader != pid {
                    refuse(s, pid, "Team switching is disabled in this lobby."@)
                } else if target != pid && l.leader != pid {
                    refuse(s, pid, "Cannot switch team of other player."@)
                } else if team.0 >= l.settings.team_count {
                    refuse(s, pid, team_ref(team.0 as nat) + " does not exist."@)
                } else if l.players[team.0 as int].len() >= l.settings.player_limit_per_team {
                    refuse(s, pid, team_ref(team.0 as nat) + " is full."@)
                } else if !is_member(l.players, target) {
                    refuse(s, pid, "Player does not exist"@)
                } else {
                    let teams2 = remove_player(l.players, target);
                    let teams3 = teams2.update(
                        team.0 as int,
                        teams2[team.0 as int].push(target),
                    );
                    let l2 = LobbyV { players: teams3, ..l };
                    let s2 = ServerV { lobbies: s.lobbies.insert(lid.0, l2), ..s };
                    (
                        s2,
                        seq![
                            ActionV::Broadcast(
                                flat(teams3),
                                MessageFromServerV::PlayerSwitchedTeam(target, team),
                            ),
                        ],
                    )
                }
            },
        }
    }
}

pub open spec fn switch_places_spec(s: ServerV, pid: PlayerId, a: PlayerId, b: PlayerId) -> StepV {
    if !s.players.contains_key(pid.0) {
        (s, Seq::empty())
    } else {
        let pl = s.players[pid.0];
        match pl.in_lobby {
            None => refuse(s, pid, "You are not in a lobby."@),
            Some(lid) => if !s.lobbies.contains_key(lid.0) {
                refuse(s, pid, "That lobby does not exist."@)
            } else {
                let l = s.lobbies[lid.0];
                if !(l.lobby_state is Normal) {
                    refuse(s, pid, "Lobby is in invalid state."@)
                } else if !l.settings.players_can_change_team && l.leader != pid {
                    refuse(s, pid, "Team switching is disabled in this lobby."@)
                } else if l.leader != pid {
                    refuse(s, pid, "You are not the lobby leader."@)
                } else if !is_member(l.players, a) {
                    refuse(s, pid, "Player does not exist"@)
                } else if !is_member(l.players, b) {
                    refuse(s, pid, "Player does not exist"@)
                } else {
                    let ta = team_of(l.players, a);
                    let ia = idx_in(l.players[ta], a);
                    let tb = team_of(l.players, b);
                    let ib = idx_in(l.players[tb], b);
                    let t1 = l.players.update(ta, l.players[ta].update(ia, b));
                    let t2 = t1.update(tb, t1[tb].update(ib, a));
                    let l2 = LobbyV { players: t2, ..l };
                    let s2 = ServerV { lobbies: s.lobbies.insert(lid.0, l2), ..s };
                    (
                        s2,
                        seq![
                            ActionV::Broadcast(
                                flat(t2),
                                MessageFromServerV::PlayersSwitched(a, b),
                            ),
                        ],
                    )
                }
            },
        }
    }
}

pub open spec fn get_lobby_info_spec(s: ServerV, pid: PlayerId, lid: LobbyId) -> StepV {
    if !s.players.contains_key(pid.0) {
        (s, Seq::empty())
    } else if !s.lobbies.contains_key(lid.0) {
        refuse(s, pid, "That lobby does not exist."@)
    } else {
        (s, seq![ActionV::Send(pid, MessageFromServerV::LobbyInfo(s.lobbies[lid.0]))])
    }
}

pub open spec fn lobby_list_of(s: ServerV) -> Seq<LobbyShortInfoV> {
    Seq::new(s.lobby_order.len(), |i: int| short_of(s.lobbies[s.lobby_order[i]]))
}

pub open spec fn get_lobby_list_spec(s: ServerV, pid: PlayerId) -> StepV {
    if !s.players.contains_key(pid.0) {
        (s, Seq::empty())
    } else {
        (s, seq![ActionV::Send(pid, MessageFromServerV::LobbyList(lobby_list_of(s)))])
    }
}

pub open spec fn get_player_info_spec(s: ServerV, pid: PlayerId, target: PlayerId) -> StepV {
    if !s.players.contains_key(pid.0) {
        (s, Seq::empty())
    } else if s.players.contains_key(target.0) {
        (s, seq![ActionV::Send(pid, MessageFromServerV::PlayerInfo(s.players[target.0].info))])
    } else {
        (s, Seq::empty())
    }
}

pub open spec fn kick_player_spec(s: ServerV, pid: PlayerId, target: PlayerId) -> StepV {
    if !s.players.contains_key(pid.0) {
        (s, Seq::empty())
    } else {
        let pl = s.players[pid.0];
        match pl.in_lobby {
            None => refuse(s, pid, "You are not in a lobby."@),
            Some(lid) => if !s.lobbies.contains_key(lid.0) {
                refuse(s, pid, "That lobby does not exist."@)
            } else {
                let l = s.lobbies[lid.0];
                if !(l.lobby_state is Normal) {
                    refuse(s, pid, "Lobby is in invalid state."@)
                } else if l.leader != pid {
                    refuse(s, pid, "You are not the lobby leader."@)
                } else {
                    let (s2, a) = player_left_spec(s, target);
                    (s2, send_if_known(s, target, MessageFromServerV::YouLeftLobby) + a)
                }
            },
        }
    }
}

/// The deterministic reshuffle: drop or add trailing teams, clip each team
/// to the new limit, then greedily place every displaced player into the
/// currently smallest team, first-in first-out.
pub open spec fn reshuffled(teams: Seq<Seq<PlayerId>>, old_count: int, ns: LobbySettingsV) -> Seq<
    Seq<PlayerId>,
> {
    let nc = ns.team_count as int;
    let teams1 = if nc < old_count {
        teams.take(nc)
    } else if nc > old_count {
        pad_teams(teams, nc)
    } else {
        teams
    };
    let d1 = if nc < old_count {
        flat(teams.skip(nc))
    } else {
        Seq::<PlayerId>::empty()
    };
    let limit = ns.player_limit_per_team as nat;
    let teams2 = trim_all(teams1, limit);
    let d2 = tails_of(teams1, limit);
    place_all(teams2, d1 + d2)
}

pub open spec fn update_settings_spec(s: ServerV, pid: PlayerId, ns: LobbySettingsV) -> StepV {
    if !s.players.contains_key(pid.0) {
        (s, Seq::empty())
    } else {
        let pl = s.players[pid.0];
        match pl.in_lobby {
            None => refuse(s, pid, "You are not in a lobby."@),
            Some(lid) => if !s.lobbies.contains_key(lid.0) {
                refuse(s, pid, "That lobby does not exist."@)
            } else {
                let l = s.lobbies[lid.0];
                if !(l.lobby_state is Normal) {
                    refuse(s, pid, "Lobby is in invalid state."@)
                } else if l.leader != pid {
                    refuse(s, pid, "You are not the lobby leader."@)
                } else if ns.name.len() == 0 {
                    refuse(s, pid, "Lobby name cannot be empty."@)
                } else if all_whitespace(ns.name) {
                    refuse(s, pid, "Lobby name cannot be only whitespace."@)
                } else if ns.map_name != "Default"@ {
                    refuse(s, pid, "No map "@ + ns.map_name + " exists."@)
                } else if ns.team_count < 1 {
                    refuse(s, pid, "There must be at least 1 team."@)
                } else if lobby_capacity(ns) > usize::MAX as int {
                    refuse(s, pid, "Lobby capacity is too large."@)
                } else if flat(l.players).len() > lobby_capacity(ns) {
                    refuse(s, pid, "Not enough room for all players."@)
                } else if ns == l.settings {
                    (s, Seq::empty())
                } else {
                    let teams3 = reshuffled(l.players, l.settings.team_count as int, ns);
                    let l2 = LobbyV { settings: ns, players: teams3, ..l };
                    let s2 = ServerV { lobbies: s.lobbies.insert(lid.0, l2), ..s };
                    (
                        s2,
                        seq![
                            ActionV::Broadcast(
                                flat(teams3),
                                MessageFromServerV::SettingsUpdated(ns),
                            ),
                        ],
                    )
                }
            },
        }
    }
}

pub open spec fn enter_champ_select_spec(s: ServerV, pid: PlayerId) -> StepV {
    if !s.players.contains_key(pid.0) {
        (s, Seq::empty())
    } else {
        let pl = s.players[pid.0];
        match pl.in_lobby {
            None => refuse(s, pid, "You are not in a lobby."@),
            Some(lid) => if !s.lobbies.contains_key(lid.0) {
                refuse(s, pid, "That lobby does not exist."@)
            } else {
                let l = s.lobbies[lid.0];
                if !(l.lobby_state is Normal) {
                    refuse(s, pid, "Lobby is in invalid state."@)
                } else if l.leader != pid {
                    refuse(s, pid, "You are not the lobby leader."@)
                } else {
                    let cs = ChampSelectStateV {
                        available_champs: champ_catalog(),
                        selected_champs: init_selected(
                            flat(l.players),
                            None::<ChampionSelectionV>,
                        ),
                    };
                    let l2 = LobbyV { lobby_state: LobbyStateV::ChampSelect(cs), ..l };
                    let s2 = ServerV { lobbies: s.lobbies.insert(lid.0, l2), ..s };
                    (
                        s2,
                        seq![
                            ActionV::Broadcast(
                                flat(l.players),
                                MessageFromServerV::ChampSelectEntered,
                            ),
                        ],
                    )
                }
            },
        }
    }
}

pub open spec fn select_champion_spec(s: ServerV, pid: PlayerId, c: Seq<char>) -> StepV {
    if !s.players.contains_key(pid.0) {
        (s, Seq::empty())
    } else {
        let pl = s.players[pid.0];
        match pl.in_lobby {
            None => refuse(s, pid, "You are not in a lobby."@),
            Some(lid) => if !s.lobbies.contains_key(lid.0) {
                refuse(s, pid, "That lobby does not exist."@)
            } else {
                let l = s.lobbies[lid.0];
                match l.lobby_state {
                    LobbyStateV::ChampSelect(cs) => if !cs.available_champs.contains(c) {
                        refuse(s, pid, "That champion does not exist."@)
                    } else if is_locked(cs.selected_champs[pid.0]) {
                        refuse(s, pid, "You cannot change locked selection."@)
                    } else {
                        let cs2 = ChampSelectStateV {
                            selected_champs: cs.selected_champs.insert(
                                pid.0,
                                Some(ChampionSelectionV { champion: c, locked: false }),
                            ),
                            ..cs
                        };
                        let l2 = LobbyV { lobby_state: LobbyStateV::ChampSelect(cs2), ..l };
                        let s2 = ServerV { lobbies: s.lobbies.insert(lid.0, l2), ..s };
                        (
                            s2,
                            seq![
                                ActionV::Broadcast(
                                    flat(l.players),
                                    MessageFromServerV::PlayerSelectedChampion(pid, c),
                                ),
                            ],
                        )
                    },
                    _ => refuse(s, pid, "Lobby is in invalid state."@),
                }
            },
        }
    }
}

/// The launch decision, taken while holding the authoritative state: pick
/// the lowest free port, record the handle, move the lobby in-game and owe
/// a launch; with no free port left, recover as on a dead game server.
pub open spec fn start_game_spec(s: ServerV, lid: LobbyId, token: u128) -> StepV {
    if !s.lobbies.contains_key(lid.0) {
        (s, Seq::empty())
    } else {
        let l = s.lobbies[lid.0];
        match l.lobby_state {
            LobbyStateV::ChampSelect(cs) => match find_free_port(s) {
                None => fail_lobby_spec(s, lid),
                Some(port) => {
                    let l2 = LobbyV { lobby_state: LobbyStateV::InGame, ..l };
                    let s2 = ServerV {
                        lobbies: s.lobbies.insert(lid.0, l2),
                        game_servers: s.game_servers.insert(lid.0, port),
                        ..s
                    };
                    (
                        s2,
                        seq![
                            ActionV::LaunchGameServer {
                                lobby: lid,
                                port,
                                token,
                                roster: roster_of(s, l, cs),
                            },
                        ],
                    )
                },
            },
            _ => (s, Seq::empty()),
        }
    }
}

/// Tell a lobby its game server failed and force every member out.
pub open spec fn fail_lobby_spec(s: ServerV, lid: LobbyId) -> StepV {
    let l = s.lobbies[lid.0];
    let ms = flat(l.players);
    let bc = seq![
        ActionV::Broadcast(ms, MessageFromServerV::RequestRefused("Failed to start game server"@)),
    ];
    let (s2, acts) = evacuate_list(s, ms);
    (s2, bc + acts)
}

/// The lobby record after the requester's choice is locked.
pub open spec fn lock_lobby_after(s: ServerV, pid: PlayerId, lid: LobbyId) -> LobbyV {
    let l = s.lobbies[lid.0];
    let cs = l.lobby_state->ChampSelect_0;
    let cs2 = ChampSelectStateV {
        selected_champs: cs.selected_champs.insert(
            pid.0,
            Some(
                ChampionSelectionV {
                    champion: sel_champ(cs.selected_champs[pid.0]),
                    locked: true,
                },
            ),
        ),
        ..cs
    };
    LobbyV { lobby_state: LobbyStateV::ChampSelect(cs2), ..l }
}

/// The server right after the lock, before any launch.
pub open spec fn lock_mid_state(s: ServerV, pid: PlayerId, lid: LobbyId) -> ServerV {
    ServerV { lobbies: s.lobbies.insert(lid.0, lock_lobby_after(s, pid, lid)), ..s }
}

pub open spec fn lock_champ_selection_spec(s: ServerV, pid: PlayerId, token: u128) -> StepV {
    if !s.players.contains_key(pid.0) {
        (s, Seq::empty())
    } else {
        let pl = s.players[pid.0];
        match pl.in_lobby {
            None => refuse(s, pid, "You are not in a lobby."@),
            Some(lid) => if !s.lobbies.contains_key(lid.0) {
                refuse(s, pid, "That lobby does not exist."@)
            } else {
                let l = s.lobbies[lid.0];
                match l.lobby_state {
                    LobbyStateV::ChampSelect(cs) => if cs.selected_champs[pid.0] is None {
                        refuse(s, pid, "Cannot lock empty selection."@)
                    } else {
                        let l2 = lock_lobby_after(s, pid, lid);
                        let cs2 = l2.lobby_state->ChampSelect_0;
                        let s1 = lock_mid_state(s, pid, lid);
                        let bc: Seq<ActionV> = seq![
                            ActionV::Broadcast(
                                flat(l2.players),
                                MessageFromServerV::ChampSelectionLocked(pid),
                            ),
                        ];
                        let (s2, sacts) = if all_locked(cs2.selected_champs) {
                            start_game_spec(s1, lid, token)
                        } else {
                            (s1, Seq::<ActionV>::empty())
                        };
                        (s2, bc + sacts)
                    },
                    _ => refuse(s, pid, "Lobby is in invalid state."@),
                }
            },
        }
    }
}

// ---------------------------------------------------------------------
// Events
// ---------------------------------------------------------------------

pub open spec fn connection_made_spec(s: ServerV, minted: u128) -> (ServerV, Option<PlayerId>) {
    if s.players.contains_key(minted) {
        (s, None)
    } else {
        let pid = PlayerId(minted);
        let entry = PlayerEntryV {
            info: PlayerInfoV { id: pid, name: Seq::empty() },
            in_lobby: None,
        };
        let s2 = ServerV {
            players: s.players.insert(minted, entry),
            player_order: s.player_order.push(minted),
            ..s
        };
        (s2, Some(pid))
    }
}

pub open spec fn player_name_updated_spec(s: ServerV, pid: PlayerId, name: Seq<char>) -> ServerV {
    if s.players.contains_key(pid.0) {
        let pl = s.players[pid.0];
        ServerV {
            players: s.players.insert(
                pid.0,
                PlayerEntryV { info: PlayerInfoV { name, ..pl.info }, ..pl },
            ),
            ..s
        }
    } else {
        s
    }
}

pub open spec fn connection_lost_spec(s: ServerV, pid: PlayerId) -> StepV {
    let (s1, a) = player_left_spec(s, pid);
    let s2 = ServerV {
        players: s1.players.remove(pid.0),
        player_order: if s1.player_order.contains(pid.0) {
            s1.player_order.remove(find_key(s1.player_order, pid.0))
        } else {
            s1.player_order
        },
        ..s1
    };
    (s2, a)
}

/// Forget a lobby's game-server handle, unless the lobby is still playing
/// a match (then the handle still owns the child).
pub open spec fn drop_handle(s: ServerV, lid: LobbyId) -> ServerV {
    if s.lobbies.contains_key(lid.0) && s.lobbies[lid.0].lobby_state is InGame {
        s
    } else {
        ServerV { game_servers: s.game_servers.remove(lid.0), ..s }
    }
}

pub open spec fn game_server_exited_spec(s: ServerV, lid: LobbyId, success: bool) -> StepV {
    if !s.lobbies.contains_key(lid.0) {
        (drop_handle(s, lid), Seq::empty())
    } else {
        let ms = flat(s.lobbies[lid.0].players);
        let bc: Seq<ActionV> = if success {
            Seq::empty()
        } else {
            seq![
                ActionV::Broadcast(
                    ms,
                    MessageFromServerV::RequestRefused("Failed to start game server"@),
                ),
            ]
        };
        let (s2, acts) = evacuate_list(s, ms);
        (drop_handle(s2, lid), bc + acts)
    }
}

pub open spec fn token_sends(s: ServerV, prs: Seq<(PlayerId, Seq<char>)>) -> Seq<ActionV>
    decreases prs.len(),
{
    if prs.len() == 0 {
        Seq::empty()
    } else {
        token_sends(s, prs.drop_last()) + send_if_known(
            s,
            prs.last().0,
            MessageFromServerV::GameStarted(prs.last().1),
        )
    }
}

pub open spec fn shutdown_spec(s: ServerV) -> StepV {
    (
        ServerV { should_exit: true, ..s },
        seq![
            ActionV::Broadcast(ids_of(s.player_order), MessageFromServerV::ServerShutdown),
            ActionV::Exit,
        ],
    )
}

/// Dispatch of one client request. `minted` is the fresh 128-bit id drawn
/// for the event, used by lobby creation and as the match token.
pub open spec fn handle_message_spec(
    s: ServerV,
    pid: PlayerId,
    msg: MessageFromPlayer,
    minted: u128,
) -> StepV {
    if !s.players.contains_key(pid.0) {
        (s, Seq::empty())
    } else {
        match msg {
            MessageFromPlayer::InitialHandshake { .. } => (s, Seq::empty()),
            MessageFromPlayer::CreateLobby => create_lobby_spec(s, pid, minted),
            MessageFromPlayer::JoinLobby(lid) => join_lobby_spec(s, pid, lid),
            MessageFromPlayer::LeaveLobby => leave_lobby_spec(s, pid),
            MessageFromPlayer::SwitchTeam(target, team) => switch_team_spec(s, pid, target, team),
            MessageFromPlayer::SwitchPlaces(a, b) => switch_places_spec(s, pid, a, b),
            MessageFromPlayer::GetLobbyInfo(lid) => get_lobby_info_spec(s, pid, lid),
            MessageFromPlayer::GetLobbyList => get_lobby_list_spec(s, pid),
            MessageFromPlayer::GetPlayerInfo(target) => get_player_info_spec(s, pid, target),
            MessageFromPlayer::KickPlayer(target) => kick_player_spec(s, pid, target),
            MessageFromPlayer::UpdateSettings(ns) => update_settings_spec(
                s,
                pid,
                ns.deep_view(),
            ),
            MessageFromPlayer::EnterChampSelect => enter_champ_select_spec(s, pid),
            MessageFromPlayer::SelectChampion(c) => select_champion_spec(s, pid, c@),
            MessageFromPlayer::LockChampSelection => lock_champ_selection_spec(s, pid, minted),
            // reserved by the protocol; a match starts through the lock path
            MessageFromPlayer::StartGame => refuse(s, pid, "Invalid request."@),
            MessageFromPlayer::Disconnecting => (s, seq![ActionV::DropConnection(pid)]),
        }
    }
}

/// Dispatch of one event of the loop.
pub open spec fn handle_event_spec(s: ServerV, ev: Event, minted: u128) -> StepV {
    match ev {
        Event::PlayerNameUpdated(pid, name) => (
            player_name_updated_spec(s, pid, name@),
            Seq::<ActionV>::empty(),
        ),
        Event::MessageReceived(pid, msg) => handle_message_spec(s, pid, msg, minted),
        Event::ConnectionLost(pid) => connection_lost_spec(s, pid),
        Event::GameTokensGenerated(pairs) => (s, token_sends(s, pairs.deep_view())),
        Event::GameServerExited(lid, ok) => game_server_exited_spec(s, lid, ok),
        Event::Shutdown => shutdown_spec(s),
    }
}

} // verus!
