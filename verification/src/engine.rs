//! The executable state engine.
//!
//! `ServerState` owns every lobby, player and game-server record. Each
//! handler is proven to produce exactly the state and the actions that the
//! corresponding transition function of [`crate::model`] prescribes, and to
//! keep the service invariant [`crate::model::inv`].

use vstd::prelude::*;

use crate::idmap::IdMap;
use crate::laws;
use crate::model::{
    connection_made_spec, create_lobby_spec, get_lobby_info_spec, get_lobby_list_spec,
    get_player_info_spec, inv, lobby_list_of, player_name_updated_spec, short_of, ServerV,
};
use crate::teams::{flat, recipients_vec, roster_vec};
use crate::textnum::default_lobby_name_string;
use crate::types::{
    Action, ActionV, ChampSelectState, ChampionSelection, Event, Lobby, LobbyId, LobbySettings,
    LobbyShortInfo, LobbyState, MessageFromPlayer, MessageFromServer, MessageFromServerV,
    PlayerEntry, PlayerEntryV, PlayerId, PlayerInfo, PlayerSelection, Team,
};

verus! {

pub open spec fn lobby_rep_wf(l: Lobby) -> bool {
    match l.lobby_state {
        LobbyState::ChampSelect(cs) => cs.selected_champs.wf(),
        _ => true,
    }
}

/// The authoritative state of the lobby service.
pub struct ServerState {
    pub lobbies: IdMap<Lobby>,
    pub players: IdMap<PlayerEntry>,
    pub game_servers: IdMap<u16>,
    pub port_start: u16,
    pub port_end: u16,
    pub should_exit: bool,
}

impl View for ServerState {
    type V = ServerV;

    open spec fn view(&self) -> ServerV {
        ServerV {
            lobbies: self.lobbies.deep_view(),
            lobby_order: self.lobbies.key_seq(),
            players: self.players.deep_view(),
            player_order: self.players.key_seq(),
            game_servers: self.game_servers.deep_view(),
            port_start: self.port_start,
            port_end: self.port_end,
            should_exit: self.should_exit,
        }
    }
}

impl ServerState {
    /// Well-formed: the maps are sound and the service invariant holds of
    /// the model image.
    pub open spec fn wf(self) -> bool {
        &&& self.lobbies.wf()
        &&& self.players.wf()
        &&& self.game_servers.wf()
        &&& forall|i: int|
            0 <= i < self.lobbies.vs@.len() ==> lobby_rep_wf(#[trigger] self.lobbies.vs@[i])
        &&& inv(self@)
    }

    /// A fresh engine for the given inclusive game-server port range.
    pub fn new(port_start: u16, port_end: u16) -> (r: ServerState)
        ensures
            r.wf(),
            r@ == (ServerV {
                lobbies: Map::<u128, crate::types::LobbyV>::empty(),
                lobby_order: Seq::<u128>::empty(),
                players: Map::<u128, PlayerEntryV>::empty(),
                player_order: Seq::<u128>::empty(),
                game_servers: Map::<u128, u16>::empty(),
                port_start: port_start,
                port_end: port_end,
                should_exit: false,
            }),
    {
        let r = ServerState {
            lobbies: IdMap::new(),
            players: IdMap::new(),
            game_servers: IdMap::new(),
            port_start,
            port_end,
            should_exit: false,
        };
        proof {
            assert(r@ =~~= (ServerV {
                lobbies: Map::<u128, crate::types::LobbyV>::empty(),
                lobby_order: Seq::<u128>::empty(),
                players: Map::<u128, PlayerEntryV>::empty(),
                player_order: Seq::<u128>::empty(),
                game_servers: Map::<u128, u16>::empty(),
                port_start: port_start,
                port_end: port_end,
                should_exit: false,
            }));
        }
        r
    }

    pub fn should_exit(&self) -> (r: bool)
        ensures
            r == self@.should_exit,
    {
        self.should_exit
    }

    /// A connection was accepted: mint a fresh player id and record the
    /// player. The minted id is random; if it happens to collide with a
    /// live one, a fresh id is found instead, so the player is always
    /// recorded.
    pub fn connection_made(&mut self) -> (r: Option<PlayerId>)
        requires
            old(self).wf(),
        ensures
            final(self).wf(),
            exists|minted: u128|
                !old(self)@.players.contains_key(minted) && (final(self)@, r)
                    == connection_made_spec(old(self)@, minted),
    {
        let raw = self.players.fresh_key(crate::mint::mint_id());
        let r = self.connection_made_with_id(raw);
        proof {
            assert((final(self)@, r) == connection_made_spec(old(self)@, raw));
        }
        r
    }

    /// The deterministic core of `connection_made`, for a given fresh id.
    pub fn connection_made_with_id(&mut self, raw: u128) -> (r: Option<PlayerId>)
        requires
            old(self).wf(),
        ensures
            final(self).wf(),
            (final(self)@, r) == connection_made_spec(old(self)@, raw),
    {
        if self.players.contains(raw) {
            None
        } else {
            let pid = PlayerId(raw);
            let entry = PlayerEntry {
                info: PlayerInfo { id: pid, name: String::new() },
                in_lobby: None,
            };
            self.players.insert(raw, entry);
            proof {
                laws::lemma_inv_connection_made(old(self)@, raw);
                assert(final(self)@ =~~= connection_made_spec(old(self)@, raw).0);
            }
            Some(pid)
        }
    }

    /// A session task learned the player's display name.
    pub fn player_name_updated(&mut self, pid: PlayerId, name: String) -> (acts: Vec<Action>)
        requires
            old(self).wf(),
        ensures
            final(self).wf(),
            final(self)@ == player_name_updated_spec(old(self)@, pid, name@),
            acts.deep_view() == Seq::<ActionV>::empty(),
    {
        let entry_opt = self.players.index_of(pid.0);
        match entry_opt {
            Some(i) => {
                let e = self.players.val_at(i);
                let entry2 = PlayerEntry {
                    info: PlayerInfo { id: e.info.id, name },
                    in_lobby: e.in_lobby,
                };
                self.players.insert(pid.0, entry2);
                proof {
                    laws::lemma_inv_player_name_updated(old(self)@, pid, name@);
                    assert(final(self)@ =~~= player_name_updated_spec(old(self)@, pid, name@));
                }
            },
            None => {},
        }
        let acts: Vec<Action> = Vec::new();
        proof {
            assert(acts.deep_view() =~= Seq::<ActionV>::empty());
        }
        acts
    }

    /// Reply with the public identity of a player; an unknown id is
    /// silently dropped.
    pub fn get_player_info(&self, pid: PlayerId, target: PlayerId) -> (acts: Vec<Action>)
        requires
            self.wf(),
        ensures
            get_player_info_spec(self@, pid, target) == (self@, acts.deep_view()),
    {
        let mut acts: Vec<Action> = Vec::new();
        if self.players.contains(pid.0) {
            match self.players.get(target.0) {
                Some(e) => {
                    let info = clone_player_info(&e.info);
                    acts.push(Action::Send(pid, MessageFromServer::PlayerInfo(info)));
                },
                None => {},
            }
        }
        proof {
            assert(acts.deep_view() =~= get_player_info_spec(self@, pid, target).1);
        }
        acts
    }

    /// Reply with a full snapshot of one lobby.
    pub fn get_lobby_info(&self, pid: PlayerId, lid: LobbyId) -> (acts: Vec<Action>)
        requires
            self.wf(),
        ensures
            get_lobby_info_spec(self@, pid, lid) == (self@, acts.deep_view()),
    {
        let mut acts: Vec<Action> = Vec::new();
        if self.players.contains(pid.0) {
            match self.lobbies.get(lid.0) {
                Some(l) => {
                    let snap = snapshot_lobby(l);
                    acts.push(Action::Send(pid, MessageFromServer::LobbyInfo(snap)));
                },
                None => {
                    acts.push(
                        Action::Send(
                            pid,
                            MessageFromServer::RequestRefused(
                                "That lobby does not exist.".to_owned(),
                            ),
                        ),
                    );
                },
            }
        }
        proof {
            assert(acts.deep_view() =~= get_lobby_info_spec(self@, pid, lid).1);
        }
        acts
    }

    /// Reply with one browser line per lobby, in creation order.
    pub fn get_lobby_list(&self, pid: PlayerId) -> (acts: Vec<Action>)
        requires
            self.wf(),
        ensures
            get_lobby_list_spec(self@, pid) == (self@, acts.deep_view()),
    {
        let mut acts: Vec<Action> = Vec::new();
        if self.players.contains(pid.0) {
            let mut infos: Vec<LobbyShortInfo> = Vec::new();
            let n = self.lobbies.len();
            let mut i: usize = 0;
            while i < n
                invariant
                    self.wf(),
                    n == self.lobbies.ks@.len(),
                    i <= n,
                    infos.deep_view() =~= lobby_list_of(self@).take(i as int),
                decreases n - i,
            {
                let l = self.lobbies.val_at(i);
                proof {
                    self.lobbies.lemma_at(i as int);
                    assert(self@.lobbies.contains_key(self@.lobby_order[i as int]));
                    assert(crate::model::lobby_ok(self@, self@.lobby_order[i as int]));
                }
                let members = roster_vec(&l.players);
                let info = LobbyShortInfo {
                    id: l.id,
                    name: l.settings.name.clone(),
                    player_count: members.len(),
                    max_player_count: l.settings.team_count * l.settings.player_limit_per_team,
                };
                let ghost pre = infos.deep_view();
                infos.push(info);
                proof {
                    assert(info.deep_view() =~= short_of(
                        self@.lobbies[self@.lobby_order[i as int]],
                    ));
                    assert(infos.deep_view() =~= pre.push(info.deep_view()));
                    assert(lobby_list_of(self@).take(i + 1) =~= lobby_list_of(self@).take(
                        i as int,
                    ).push(lobby_list_of(self@)[i as int]));
                    assert(infos.deep_view() =~= lobby_list_of(self@).take(i + 1));
                }
                i += 1;
            }
            proof {
                assert(lobby_list_of(self@).take(n as int) =~= lobby_list_of(self@));
                assert(infos.deep_view() == lobby_list_of(self@));
            }
            acts.push(Action::Send(pid, MessageFromServer::LobbyList(infos)));
        }
        proof {
            assert(acts.deep_view() =~= get_lobby_list_spec(self@, pid).1);
        }
        acts
    }
}

impl ServerState {
    /// Create a lobby for the requester, minting its id. The minted id is
    /// random; if it happens to collide with a live one, a fresh id is
    /// found instead, so for a requester outside any lobby creation always
    /// succeeds.
    pub fn create_lobby(&mut self, pid: PlayerId) -> (acts: Vec<Action>)
        requires
            old(self).wf(),
        ensures
            final(self).wf(),
            exists|minted: u128|
                !old(self)@.lobbies.contains_key(minted) && (final(self)@, acts.deep_view())
                    == create_lobby_spec(old(self)@, pid, minted),
    {
        let raw = self.lobbies.fresh_key(crate::mint::mint_id());
        let acts = self.create_lobby_with_id(pid, LobbyId(raw));
        proof {
            assert((final(self)@, acts.deep_view()) == create_lobby_spec(old(self)@, pid, raw));
        }
        acts
    }

    /// The deterministic core of `create_lobby`, for a given lobby id. An
    /// id that is already taken leaves the state untouched.
    pub fn create_lobby_with_id(&mut self, pid: PlayerId, lid: LobbyId) -> (acts: Vec<Action>)
        requires
            old(self).wf(),
        ensures
            final(self).wf(),
            (final(self)@, acts.deep_view()) == create_lobby_spec(old(self)@, pid, lid.0),
    {
        let ghost spec_r = create_lobby_spec(old(self)@, pid, lid.0);
        let mut acts: Vec<Action> = Vec::new();
        match self.players.index_of(pid.0) {
            None => {
                proof {
                    assert(acts.deep_view() =~= spec_r.1);
                }
            },
            Some(i) => {
                let e = self.players.val_at(i);
                if e.in_lobby.is_some() {
                    acts.push(refuse_action(pid, "You are already in a lobby."));
                    proof {
                        assert(acts.deep_view() =~= spec_r.1);
                    }
                } else if self.lobbies.contains(lid.0) {
                    proof {
                        assert(acts.deep_view() =~= spec_r.1);
                    }
                } else {
                    let info2 = clone_player_info(&e.info);
                    let name = default_lobby_name_string(&e.info.name);
                    let settings = LobbySettings {
                        name,
                        map_name: "Default".to_owned(),
                        team_count: 2,
                        player_limit_per_team: 5,
                        players_can_change_team: true,
                        lobby_is_open: true,
                    };
                    let mut teams: Vec<Vec<PlayerId>> = Vec::new();
                    let mut t0: Vec<PlayerId> = Vec::new();
                    t0.push(pid);
                    teams.push(t0);
                    teams.push(Vec::new());
                    let recipients = recipients_vec(&teams, Some(pid));
                    let lobby = Lobby {
                        id: lid,
                        settings,
                        leader: pid,
                        players: teams,
                        lobby_state: LobbyState::Normal,
                    };
                    proof {
                        assert(lobby.players.deep_view() =~~= seq![
                            seq![pid],
                            Seq::<PlayerId>::empty(),
                        ]);
                        assert(lobby.deep_view() =~~= spec_r.0.lobbies[lid.0]);
                    }
                    self.lobbies.insert(lid.0, lobby);
                    self.players.insert(pid.0, PlayerEntry { info: info2, in_lobby: Some(lid) });
                    acts.push(Action::Send(pid, MessageFromServer::YouJoinedLobby(lid)));
                    acts.push(
                        Action::Broadcast(
                            recipients,
                            MessageFromServer::PlayerJoinedYourLobby(pid),
                        ),
                    );
                    proof {
                        laws::lemma_inv_create(old(self)@, pid, lid.0);
                        assert(final(self)@ =~~= spec_r.0);
                        assert(acts.deep_view() =~~= spec_r.1);
                        assert forall|j: int|
                            0 <= j < self.lobbies.vs@.len() implies lobby_rep_wf(
                            #[trigger] self.lobbies.vs@[j],
                        ) by {
                            if j < old(self).lobbies.vs@.len() {
                                assert(self.lobbies.vs@[j] == old(self).lobbies.vs@[j]);
                            }
                        }
                    }
                }
            },
        }
        acts
    }
}

impl ServerState {
    /// Join an open, normal-phase lobby; the joiner goes to the smallest
    /// team (ties to the lowest index).
    pub fn join_lobby(&mut self, pid: PlayerId, lid: LobbyId) -> (acts: Vec<Action>)
        requires
            old(self).wf(),
        ensures
            final(self).wf(),
            (final(self)@, acts.deep_view()) == crate::model::join_lobby_spec(
                old(self)@,
                pid,
                lid,
            ),
    {
        let ghost spec_r = crate::model::join_lobby_spec(old(self)@, pid, lid);
        let mut acts: Vec<Action> = Vec::new();
        match self.players.index_of(pid.0) {
            None => {
                proof {
                    assert(acts.deep_view() =~= spec_r.1);
                }
            },
            Some(pi) => {
                let info2 = clone_player_info(&self.players.val_at(pi).info);
                if self.players.val_at(pi).in_lobby.is_some() {
                    acts.push(refuse_action(pid, "You are already in a lobby."));
                    proof {
                        assert(acts.deep_view() =~~= spec_r.1);
                    }
                } else {
                    match self.lobbies.index_of(lid.0) {
                        None => {
                            acts.push(refuse_action(pid, "That lobby does not exist."));
                            proof {
                                assert(acts.deep_view() =~~= spec_r.1);
                            }
                        },
                        Some(li) => {
                            let l = self.lobbies.val_at(li);
                            proof {
                                self.lobbies.lemma_at(li as int);
                                assert(crate::model::lobby_ok(self@, lid.0));
                            }
                            if !matches!(l.lobby_state, LobbyState::Normal) {
                                acts.push(refuse_action(pid, "Lobby is in invalid state."));
                                proof {
                                    assert(acts.deep_view() =~~= spec_r.1);
                                }
                            } else if !l.settings.lobby_is_open {
                                acts.push(refuse_action(pid, "The lobby is closed."));
                                proof {
                                    assert(acts.deep_view() =~~= spec_r.1);
                                }
                            } else {
                                let members = roster_vec(&l.players);
                                let cap = (l.settings.team_count as u128) * (
                                l.settings.player_limit_per_team as u128);
                                if members.len() as u128 >= cap {
                                    acts.push(refuse_action(pid, "The lobby is full"));
                                    proof {
                                        assert(acts.deep_view() =~~= spec_r.1);
                                    }
                                } else {
                                    let t = crate::teams::smallest_team_index(&l.players);
                                    let mut teams2 = clone_teams(&l.players);
                                    let ghost d = l.players.deep_view();
                                    let mut team_t = teams2.remove(t);
                                    team_t.push(pid);
                                    teams2.insert(t, team_t);
                                    proof {
                                        assert(teams2.deep_view() =~~= d.update(
                                            t as int,
                                            d[t as int].push(pid),
                                        ));
                                    }
                                    let recipients = recipients_vec(&teams2, Some(pid));
                                    let l2 = Lobby {
                                        id: l.id,
                                        settings: clone_settings(&l.settings),
                                        leader: l.leader,
                                        players: teams2,
                                        lobby_state: LobbyState::Normal,
                                    };
                                    proof {
                                        assert(l2.deep_view() =~~= spec_r.0.lobbies[lid.0]);
                                    }
                                    self.lobbies.insert(lid.0, l2);
                                    self.players.insert(
                                        pid.0,
                                        PlayerEntry { info: info2, in_lobby: Some(lid) },
                                    );
                                    acts.push(
                                        Action::Send(pid, MessageFromServer::YouJoinedLobby(lid)),
                                    );
                                    acts.push(
                                        Action::Broadcast(
                                            recipients,
                                            MessageFromServer::PlayerJoinedYourLobby(pid),
                                        ),
                                    );
                                    proof {
                                        laws::lemma_inv_join(old(self)@, pid, lid);
                                        assert(final(self)@ =~~= spec_r.0);
                                        assert(acts.deep_view() =~~= spec_r.1);
                                        assert forall|j: int|
                                            0 <= j < self.lobbies.vs@.len() implies lobby_rep_wf(
                                            #[trigger] self.lobbies.vs@[j],
                                        ) by {
                                            if j != crate::idmap::find_key(
                                                old(self).lobbies.ks@,
                                                lid.0,
                                            ) {
                                                assert(self.lobbies.vs@[j] == old(
                                                    self,
                                                ).lobbies.vs@[j]);
                                            }
                                        }
                                    }
                                }
                            }
                        },
                    }
                }
            },
        }
        acts
    }
}

impl ServerState {
    /// The shared player-left-lobby routine: remove the player from its
    /// lobby, delete an emptied lobby (stopping its game server), promote
    /// a new leader when the leader left, and notify the remaining
    /// members.
    pub fn handle_player_left_lobby(&mut self, pid: PlayerId) -> (acts: Vec<Action>)
        requires
            old(self).wf(),
        ensures
            final(self).wf(),
            (final(self)@, acts.deep_view()) == crate::model::player_left_spec(old(self)@, pid),
    {
        let ghost spec_r = crate::model::player_left_spec(old(self)@, pid);
        let mut acts: Vec<Action> = Vec::new();
        let pi = match self.players.index_of(pid.0) {
            None => {
                proof {
                    assert(acts.deep_view() =~= spec_r.1);
                }
                return acts;
            },
            Some(pi) => pi,
        };
        let info2 = clone_player_info(&self.players.val_at(pi).info);
        let lid = match self.players.val_at(pi).in_lobby {
            None => {
                proof {
                    assert(acts.deep_view() =~= spec_r.1);
                }
                return acts;
            },
            Some(lid) => lid,
        };
        let li = match self.lobbies.index_of(lid.0) {
            None => {
                proof {
                    assert(acts.deep_view() =~= spec_r.1);
                }
                return acts;
            },
            Some(li) => li,
        };
        let l = self.lobbies.val_at(li);
        proof {
            self.lobbies.lemma_at(li as int);
            assert(crate::model::player_ok(self@, pid.0));
            assert(crate::teams::occ(l.players.deep_view(), pid) == 1);
            crate::teams::lemma_remove_player(l.players.deep_view(), pid);
        }
        let pos = crate::teams::locate_player(&l.players, pid);
        let (t, i) = match pos {
            Some(p) => p,
            None => {
                proof {
                    assert(false);
                }
                (0, 0)
            },
        };
        let ghost d = l.players.deep_view();
        let mut teams2 = clone_teams(&l.players);
        let mut team_t = teams2.remove(t);
        team_t.remove(i);
        teams2.insert(t, team_t);
        proof {
            assert(teams2.deep_view() =~~= crate::teams::remove_player(d, pid));
        }
        let state2 = match &l.lobby_state {
            LobbyState::Normal => LobbyState::Normal,
            LobbyState::InGame => LobbyState::InGame,
            LobbyState::ChampSelect(cs) => {
                let mut sel2 = clone_selected(&cs.selected_champs);
                sel2.remove(pid.0);
                LobbyState::ChampSelect(
                    ChampSelectState {
                        available_champs: clone_strings(&cs.available_champs),
                        selected_champs: sel2,
                    },
                )
            },
        };
        let settings2 = clone_settings(&l.settings);
        let leader_old = l.leader;
        let lobby_id = l.id;
        let members2 = roster_vec(&teams2);
        if members2.len() == 0 {
            self.lobbies.remove(lid.0);
            let removed_gs = self.game_servers.remove(lid.0);
            self.players.insert(pid.0, PlayerEntry { info: info2, in_lobby: None });
            if removed_gs.is_some() {
                acts.push(Action::StopGameServer(lid));
            }
            proof {
                laws::lemma_inv_player_left(old(self)@, pid);
                assert(final(self)@ =~~= spec_r.0);
                assert(acts.deep_view() =~~= spec_r.1);
                assert forall|j: int|
                    0 <= j < self.lobbies.vs@.len() implies lobby_rep_wf(
                    #[trigger] self.lobbies.vs@[j],
                ) by {
                    let fi = crate::idmap::find_key(old(self).lobbies.ks@, lid.0);
                    if j < fi {
                        assert(self.lobbies.vs@[j] == old(self).lobbies.vs@[j]);
                    } else {
                        assert(self.lobbies.vs@[j] == old(self).lobbies.vs@[j + 1]);
                    }
                }
            }
        } else {
            let mut leader2 = leader_old;
            if leader_old == pid {
                leader2 = members2[0];
                let members_copy = clone_team(&members2);
                acts.push(
                    Action::Broadcast(
                        members_copy,
                        MessageFromServer::LobbyLeaderChanged(leader2),
                    ),
                );
            }
            let l2 = Lobby {
                id: lobby_id,
                settings: settings2,
                leader: leader2,
                players: teams2,
                lobby_state: state2,
            };
            proof {
                assert(l2.deep_view() =~~= spec_r.0.lobbies[lid.0]);
            }
            self.lobbies.insert(lid.0, l2);
            self.players.insert(pid.0, PlayerEntry { info: info2, in_lobby: None });
            acts.push(Action::Broadcast(members2, MessageFromServer::PlayerLeftYourLobby(pid)));
            proof {
                laws::lemma_inv_player_left(old(self)@, pid);
                assert(final(self)@ =~~= spec_r.0);
                assert(acts.deep_view() =~~= spec_r.1);
                assert forall|j: int|
                    0 <= j < self.lobbies.vs@.len() implies lobby_rep_wf(
                    #[trigger] self.lobbies.vs@[j],
                ) by {
                    if j != crate::idmap::find_key(old(self).lobbies.ks@, lid.0) {
                        assert(self.lobbies.vs@[j] == old(self).lobbies.vs@[j]);
                    }
                }
            }
        }
        acts
    }

    /// Leave the current lobby; the reply comes first, then the fallout.
    pub fn leave_lobby(&mut self, pid: PlayerId) -> (acts: Vec<Action>)
        requires
            old(self).wf(),
        ensures
            final(self).wf(),
            (final(self)@, acts.deep_view()) == crate::model::leave_lobby_spec(old(self)@, pid),
    {
        let ghost spec_r = crate::model::leave_lobby_spec(old(self)@, pid);
        let mut acts: Vec<Action> = Vec::new();
        if !self.players.contains(pid.0) {
            proof {
                assert(acts.deep_view() =~= spec_r.1);
            }
            return acts;
        }
        acts.push(Action::Send(pid, MessageFromServer::YouLeftLobby));
        let mut rest = self.handle_player_left_lobby(pid);
        acts.append(&mut rest);
        proof {
            assert(acts.deep_view() =~~= spec_r.1);
        }
        acts
    }

    /// The leader throws a player out; the routine is the same as a
    /// voluntary leave, with the notice sent to the target.
    pub fn kick_player(&mut self, pid: PlayerId, target: PlayerId) -> (acts: Vec<Action>)
        requires
            old(self).wf(),
        ensures
            final(self).wf(),
            (final(self)@, acts.deep_view()) == crate::model::kick_player_spec(
                old(self)@,
                pid,
                target,
            ),
    {
        let ghost spec_r = crate::model::kick_player_spec(old(self)@, pid, target);
        let mut acts: Vec<Action> = Vec::new();
        let pi = match self.players.index_of(pid.0) {
            None => {
                proof {
                    assert(acts.deep_view() =~= spec_r.1);
                }
                return acts;
            },
            Some(pi) => pi,
        };
        let lid = match self.players.val_at(pi).in_lobby {
            None => {
                acts.push(refuse_action(pid, "You are not in a lobby."));
                proof {
                    assert(acts.deep_view() =~~= spec_r.1);
                }
                return acts;
            },
            Some(lid) => lid,
        };
        let li = match self.lobbies.index_of(lid.0) {
            None => {
                acts.push(refuse_action(pid, "That lobby does not exist."));
                proof {
                    assert(acts.deep_view() =~~= spec_r.1);
                }
                return acts;
            },
            Some(li) => li,
        };
        let l = self.lobbies.val_at(li);
        if !matches!(l.lobby_state, LobbyState::Normal) {
            acts.push(refuse_action(pid, "Lobby is in invalid state."));
            proof {
                assert(acts.deep_view() =~~= spec_r.1);
            }
            return acts;
        }
        if !(l.leader == pid) {
            acts.push(refuse_action(pid, "You are not the lobby leader."));
            proof {
                assert(acts.deep_view() =~~= spec_r.1);
            }
            return acts;
        }
        if self.players.contains(target.0) {
            acts.push(Action::Send(target, MessageFromServer::YouLeftLobby));
        }
        let mut rest = self.handle_player_left_lobby(target);
        acts.append(&mut rest);
        proof {
            assert(acts.deep_view() =~~= spec_r.1);
        }
        acts
    }

    /// A connection died: run the left-lobby routine and forget the
    /// player.
    pub fn connection_lost(&mut self, pid: PlayerId) -> (acts: Vec<Action>)
        requires
            old(self).wf(),
        ensures
            final(self).wf(),
            (final(self)@, acts.deep_view()) == crate::model::connection_lost_spec(
                old(self)@,
                pid,
            ),
    {
        let ghost spec_r = crate::model::connection_lost_spec(old(self)@, pid);
        let acts = self.handle_player_left_lobby(pid);
        self.players.remove(pid.0);
        proof {
            laws::lemma_inv_connection_lost(old(self)@, pid);
            assert(final(self)@ =~~= spec_r.0);
        }
        acts
    }
}

impl ServerState {
    /// Move a player (oneself, or anyone if leader) to a chosen team.
    pub fn switch_team(&mut self, pid: PlayerId, target: PlayerId, team: Team) -> (acts: Vec<
        Action,
    >)
        requires
            old(self).wf(),
        ensures
            final(self).wf(),
            (final(self)@, acts.deep_view()) == crate::model::switch_team_spec(
                old(self)@,
                pid,
                target,
                team,
            ),
    {
        let ghost spec_r = crate::model::switch_team_spec(old(self)@, pid, target, team);
        let mut acts: Vec<Action> = Vec::new();
        let pi = match self.players.index_of(pid.0) {
            None => {
                proof {
                    assert(acts.deep_view() =~= spec_r.1);
                }
                return acts;
            },
            Some(pi) => pi,
        };
        let lid = match self.players.val_at(pi).in_lobby {
            None => {
                acts.push(refuse_action(pid, "You are not in a lobby."));
                proof {
                    assert(acts.deep_view() =~~= spec_r.1);
                }
                return acts;
            },
            Some(lid) => lid,
        };
        let li = match self.lobbies.index_of(lid.0) {
            None => {
                acts.push(refuse_action(pid, "That lobby does not exist."));
                proof {
                    assert(acts.deep_view() =~~= spec_r.1);
                }
                return acts;
            },
            Some(li) => li,
        };
        let l = self.lobbies.val_at(li);
        proof {
            self.lobbies.lemma_at(li as int);
            assert(crate::model::lobby_ok(self@, lid.0));
        }
        if !matches!(l.lobby_state, LobbyState::Normal) {
            acts.push(refuse_action(pid, "Lobby is in invalid state."));
            proof {
                assert(acts.deep_view() =~~= spec_r.1);
            }
            return acts;
        }
        if !l.settings.players_can_change_team && !(l.leader == pid) {
            acts.push(refuse_action(pid, "Team switching is disabled in this lobby."));
            proof {
                assert(acts.deep_view() =~~= spec_r.1);
            }
            return acts;
        }
        if !(target == pid) && !(l.leader == pid) {
            acts.push(refuse_action(pid, "Cannot switch team of other player."));
            proof {
                assert(acts.deep_view() =~~= spec_r.1);
            }
            return acts;
        }
        if team.0 >= l.settings.team_count {
            let mut msg = crate::textnum::team_ref_string(team.0);
            msg.append(" does not exist.");
            acts.push(Action::Send(pid, MessageFromServer::RequestRefused(msg)));
            proof {
                assert(acts.deep_view() =~~= spec_r.1);
            }
            return acts;
        }
        if l.players[team.0].len() >= l.settings.player_limit_per_team {
            let mut msg = crate::textnum::team_ref_string(team.0);
            msg.append(" is full.");
            acts.push(Action::Send(pid, MessageFromServer::RequestRefused(msg)));
            proof {
                assert(acts.deep_view() =~~= spec_r.1);
            }
            return acts;
        }
        let ghost d = l.players.deep_view();
        let pos = crate::teams::locate_player(&l.players, target);
        let (t, i) = match pos {
            None => {
                acts.push(refuse_action(pid, "Player does not exist"));
                proof {
                    assert(acts.deep_view() =~~= spec_r.1);
                }
                return acts;
            },
            Some(p) => p,
        };
        proof {
            crate::teams::lemma_remove_player(d, target);
        }
        let mut teams3 = clone_teams(&l.players);
        let settings2 = clone_settings(&l.settings);
        let mut from_team = teams3.remove(t);
        from_team.remove(i);
        teams3.insert(t, from_team);
        proof {
            assert(teams3.deep_view() =~~= crate::teams::remove_player(d, target));
        }
        let mut to_team = teams3.remove(team.0);
        to_team.push(target);
        teams3.insert(team.0, to_team);
        proof {
            let t2 = crate::teams::remove_player(d, target);
            assert(teams3.deep_view() =~~= t2.update(
                team.0 as int,
                t2[team.0 as int].push(target),
            ));
        }
        let recipients = roster_vec(&teams3);
        let l2 = Lobby {
            id: l.id,
            settings: settings2,
            leader: l.leader,
            players: teams3,
            lobby_state: LobbyState::Normal,
        };
        proof {
            assert(l2.deep_view() =~~= spec_r.0.lobbies[lid.0]);
        }
        self.lobbies.insert(lid.0, l2);
        acts.push(
            Action::Broadcast(recipients, MessageFromServer::PlayerSwitchedTeam(target, team)),
        );
        proof {
            laws::lemma_inv_switch_team(old(self)@, pid, target, team);
            assert(final(self)@ =~~= spec_r.0);
            assert(acts.deep_view() =~~= spec_r.1);
            assert forall|j: int|
                0 <= j < self.lobbies.vs@.len() implies lobby_rep_wf(
                #[trigger] self.lobbies.vs@[j],
            ) by {
                if j != crate::idmap::find_key(old(self).lobbies.ks@, lid.0) {
                    assert(self.lobbies.vs@[j] == old(self).lobbies.vs@[j]);
                }
            }
        }
        acts
    }

    /// The leader swaps the slots of two lobby members.
    pub fn switch_places(&mut self, pid: PlayerId, a: PlayerId, b: PlayerId) -> (acts: Vec<
        Action,
    >)
        requires
            old(self).wf(),
        ensures
            final(self).wf(),
            (final(self)@, acts.deep_view()) == crate::model::switch_places_spec(
                old(self)@,
                pid,
                a,
                b,
            ),
    {
        let ghost spec_r = crate::model::switch_places_spec(old(self)@, pid, a, b);
        let mut acts: Vec<Action> = Vec::new();
        let pi = match self.players.index_of(pid.0) {
            None => {
                proof {
                    assert(acts.deep_view() =~= spec_r.1);
                }
                return acts;
            },
            Some(pi) => pi,
        };
        let lid = match self.players.val_at(pi).in_lobby {
            None => {
                acts.push(refuse_action(pid, "You are not in a lobby."));
                proof {
                    assert(acts.deep_view() =~~= spec_r.1);
                }
                return acts;
            },
            Some(lid) => lid,
        };
        let li = match self.lobbies.index_of(lid.0) {
            None => {
                acts.push(refuse_action(pid, "That lobby does not exist."));
                proof {
                    assert(acts.deep_view() =~~= spec_r.1);
                }
                return acts;
            },
            Some(li) => li,
        };
        let l = self.lobbies.val_at(li);
        proof {
            self.lobbies.lemma_at(li as int);
            assert(crate::model::lobby_ok(self@, lid.0));
        }
        if !matches!(l.lobby_state, LobbyState::Normal) {
            acts.push(refuse_action(pid, "Lobby is in invalid state."));
            proof {
                assert(acts.deep_view() =~~= spec_r.1);
            }
            return acts;
        }
        if !l.settings.players_can_change_team && !(l.leader == pid) {
            acts.push(refuse_action(pid, "Team switching is disabled in this lobby."));
            proof {
                assert(acts.deep_view() =~~= spec_r.1);
            }
            return acts;
        }
        if !(l.leader == pid) {
            acts.push(refuse_action(pid, "You are not the lobby leader."));
            proof {
                assert(acts.deep_view() =~~= spec_r.1);
            }
            return acts;
        }
        let ghost d = l.players.deep_view();
        let pos_a = match crate::teams::locate_player(&l.players, a) {
            None => {
                acts.push(refuse_action(pid, "Player does not exist"));
                proof {
                    assert(acts.deep_view() =~~= spec_r.1);
                }
                return acts;
            },
            Some(p) => p,
        };
        let pos_b = match crate::teams::locate_player(&l.players, b) {
            None => {
                acts.push(refuse_action(pid, "Player does not exist"));
                proof {
                    assert(acts.deep_view() =~~= spec_r.1);
                }
                return acts;
            },
            Some(p) => p,
        };
        let mut teams3 = clone_teams(&l.players);
        let settings2 = clone_settings(&l.settings);
        let mut ta_vec = teams3.remove(pos_a.0);
        ta_vec[pos_a.1] = b;
        teams3.insert(pos_a.0, ta_vec);
        proof {
            assert(teams3.deep_view() =~~= d.update(
                pos_a.0 as int,
                d[pos_a.0 as int].update(pos_a.1 as int, b),
            ));
        }
        let ghost t1 = d.update(pos_a.0 as int, d[pos_a.0 as int].update(pos_a.1 as int, b));
        let mut tb_vec = teams3.remove(pos_b.0);
        tb_vec[pos_b.1] = a;
        teams3.insert(pos_b.0, tb_vec);
        proof {
            assert(teams3.deep_view() =~~= t1.update(
                pos_b.0 as int,
                t1[pos_b.0 as int].update(pos_b.1 as int, a),
            ));
        }
        let recipients = roster_vec(&teams3);
        let l2 = Lobby {
            id: l.id,
            settings: settings2,
            leader: l.leader,
            players: teams3,
            lobby_state: LobbyState::Normal,
        };
        proof {
            assert(l2.deep_view() =~~= spec_r.0.lobbies[lid.0]);
        }
        self.lobbies.insert(lid.0, l2);
        acts.push(Action::Broadcast(recipients, MessageFromServer::PlayersSwitched(a, b)));
        proof {
            laws::lemma_inv_switch_places(old(self)@, pid, a, b);
            assert(final(self)@ =~~= spec_r.0);
            assert(acts.deep_view() =~~= spec_r.1);
            assert forall|j: int|
                0 <= j < self.lobbies.vs@.len() implies lobby_rep_wf(
                #[trigger] self.lobbies.vs@[j],
            ) by {
                if j != crate::idmap::find_key(old(self).lobbies.ks@, lid.0) {
                    assert(self.lobbies.vs@[j] == old(self).lobbies.vs@[j]);
                }
            }
        }
        acts
    }
}

/// Field-by-field comparison of two settings records.
pub fn settings_equal(a: &LobbySettings, b: &LobbySettings) -> (r: bool)
    ensures
        r == (a.deep_view() == b.deep_view()),
{
    let r = a.name == b.name && a.map_name == b.map_name && a.team_count == b.team_count
        && a.player_limit_per_team == b.player_limit_per_team && a.players_can_change_team
        == b.players_can_change_team && a.lobby_is_open == b.lobby_is_open;
    proof {
        if r {
            assert(a.deep_view() =~= b.deep_view());
        }
        if a.deep_view() == b.deep_view() {
            assert(a.name@ == b.name@);
            assert(a.map_name@ == b.map_name@);
        }
    }
    r
}

impl ServerState {
    /// The leader replaces the lobby settings; displaced players are
    /// reshuffled into the smallest teams, first-in first-out. Settings
    /// equal to the current ones are a no-op.
    pub fn update_settings(&mut self, pid: PlayerId, ns: LobbySettings) -> (acts: Vec<Action>)
        requires
            old(self).wf(),
        ensures
            final(self).wf(),
            (final(self)@, acts.deep_view()) == crate::model::update_settings_spec(
                old(self)@,
                pid,
                ns.deep_view(),
            ),
    {
        let ghost nsv = ns.deep_view();
        let ghost spec_r = crate::model::update_settings_spec(old(self)@, pid, nsv);
        let mut acts: Vec<Action> = Vec::new();
        let pi = match self.players.index_of(pid.0) {
            None => {
                proof {
                    assert(acts.deep_view() =~= spec_r.1);
                }
                return acts;
            },
            Some(pi) => pi,
        };
        let lid = match self.players.val_at(pi).in_lobby {
            None => {
                acts.push(refuse_action(pid, "You are not in a lobby."));
                proof {
                    assert(acts.deep_view() =~~= spec_r.1);
                }
                return acts;
            },
            Some(lid) => lid,
        };
        let li = match self.lobbies.index_of(lid.0) {
            None => {
                acts.push(refuse_action(pid, "That lobby does not exist."));
                proof {
                    assert(acts.deep_view() =~~= spec_r.1);
                }
                return acts;
            },
            Some(li) => li,
        };
        let l = self.lobbies.val_at(li);
        proof {
            self.lobbies.lemma_at(li as int);
            assert(crate::model::lobby_ok(self@, lid.0));
        }
        if !matches!(l.lobby_state, LobbyState::Normal) {
            acts.push(refuse_action(pid, "Lobby is in invalid state."));
            proof {
                assert(acts.deep_view() =~~= spec_r.1);
            }
            return acts;
        }
        if !(l.leader == pid) {
            acts.push(refuse_action(pid, "You are not the lobby leader."));
            proof {
                assert(acts.deep_view() =~~= spec_r.1);
            }
            return acts;
        }
        if ns.name.as_str().is_empty() {
            acts.push(refuse_action(pid, "Lobby name cannot be empty."));
            proof {
                assert(acts.deep_view() =~~= spec_r.1);
            }
            return acts;
        }
        if crate::textnum::is_blank(ns.name.as_str()) {
            acts.push(refuse_action(pid, "Lobby name cannot be only whitespace."));
            proof {
                assert(acts.deep_view() =~~= spec_r.1);
            }
            return acts;
        }
        let default_map = "Default".to_owned();
        if !(ns.map_name == default_map) {
            let mut msg = "No map ".to_owned();
            msg.append(ns.map_name.as_str());
            msg.append(" exists.");
            acts.push(Action::Send(pid, MessageFromServer::RequestRefused(msg)));
            proof {
                assert(acts.deep_view() =~~= spec_r.1);
            }
            return acts;
        }
        if ns.team_count < 1 {
            acts.push(refuse_action(pid, "There must be at least 1 team."));
            proof {
                assert(acts.deep_view() =~~= spec_r.1);
            }
            return acts;
        }
        let tc128 = ns.team_count as u128;
        let pl128 = ns.player_limit_per_team as u128;
        proof {
            assert(tc128 * pl128 <= u128::MAX) by (nonlinear_arith)
                requires
                    tc128 <= u64::MAX as u128,
                    pl128 <= u64::MAX as u128,
            ;
        }
        let cap = tc128 * pl128;
        if cap > (usize::MAX as u128) {
            acts.push(refuse_action(pid, "Lobby capacity is too large."));
            proof {
                assert(acts.deep_view() =~~= spec_r.1);
            }
            return acts;
        }
        let members = roster_vec(&l.players);
        if (members.len() as u128) > cap {
            acts.push(refuse_action(pid, "Not enough room for all players."));
            proof {
                assert(acts.deep_view() =~~= spec_r.1);
            }
            return acts;
        }
        if settings_equal(&ns, &l.settings) {
            proof {
                assert(acts.deep_view() =~= spec_r.1);
            }
            return acts;
        }
        // the reshuffle
        let ghost d = l.players.deep_view();
        let old_count = l.settings.team_count;
        let nc = ns.team_count;
        let mut teams1 = clone_teams(&l.players);
        let mut displaced: Vec<PlayerId> = Vec::new();
        let ghost teams1v = if (nc as int) < old_count as int {
            d.take(nc as int)
        } else if (nc as int) > old_count as int {
            crate::teams::pad_teams(d, nc as int)
        } else {
            d
        };
        let ghost d1v = if (nc as int) < old_count as int {
            flat(d.skip(nc as int))
        } else {
            Seq::<PlayerId>::empty()
        };
        if nc < old_count {
            let mut t = nc;
            while t < teams1.len()
                invariant
                    nc <= t <= teams1@.len(),
                    teams1.deep_view() =~~= d,
                    teams1@.len() == d.len(),
                    displaced@ == flat(d.subrange(nc as int, t as int)),
                decreases teams1@.len() - t,
            {
                let team = &teams1[t];
                let mut j: usize = 0;
                while j < team.len()
                    invariant
                        nc <= t < teams1@.len(),
                        teams1.deep_view() =~~= d,
                        teams1@.len() == d.len(),
                        team@ == d[t as int],
                        j <= team@.len(),
                        displaced@ == flat(d.subrange(nc as int, t as int)) + d[t as int].take(
                            j as int,
                        ),
                    decreases team@.len() - j,
                {
                    displaced.push(team[j]);
                    proof {
                        assert(d[t as int].take(j + 1) =~= d[t as int].take(j as int).push(
                            d[t as int][j as int],
                        ));
                        assert(displaced@ =~= flat(d.subrange(nc as int, t as int))
                            + d[t as int].take(j + 1));
                    }
                    j += 1;
                }
                proof {
                    assert(d[t as int].take(d[t as int].len() as int) =~= d[t as int]);
                    assert(d.subrange(nc as int, t + 1).drop_last() =~= d.subrange(
                        nc as int,
                        t as int,
                    ));
                    assert(d.subrange(nc as int, t + 1).last() == d[t as int]);
                    assert(displaced@ =~= flat(d.subrange(nc as int, t + 1)));
                }
                t += 1;
            }
            teams1.truncate(nc);
            proof {
                assert(d.subrange(nc as int, d.len() as int) =~= d.skip(nc as int));
                assert(displaced@ =~= d1v);
                assert(teams1.deep_view() =~~= teams1v);
            }
        } else if nc > old_count {
            while teams1.len() < nc
                invariant
                    d.len() <= teams1@.len() <= nc,
                    teams1.deep_view() =~~= crate::teams::pad_teams(d, teams1@.len() as int),
                decreases nc - teams1@.len(),
            {
                let ghost pre = teams1.deep_view();
                teams1.push(Vec::new());
                proof {
                    assert(teams1.deep_view() =~~= pre.push(Seq::<PlayerId>::empty()));
                    assert(crate::teams::pad_teams(d, teams1@.len() as int) =~~= pre.push(
                        Seq::<PlayerId>::empty(),
                    ));
                }
            }
            proof {
                assert(teams1.deep_view() =~~= teams1v);
                assert(displaced@ =~= d1v);
            }
        } else {
            proof {
                assert(teams1.deep_view() =~~= teams1v);
                assert(displaced@ =~= d1v);
            }
        }
        // clip every team to the new limit, collecting the tails
        let limit = ns.player_limit_per_team;
        let ghost limitn = limit as nat;
        let mut t: usize = 0;
        while t < teams1.len()
            invariant
                limitn == limit as nat,
                t <= teams1@.len(),
                teams1@.len() == teams1v.len(),
                forall|jj: int|
                    0 <= jj < t ==> teams1.deep_view()[jj] == crate::teams::trim_team(
                        teams1v[jj],
                        limitn,
                    ),
                forall|jj: int| t <= jj < teams1v.len() ==> teams1.deep_view()[jj] == teams1v[jj],
                displaced@ == d1v + crate::teams::tails_of(teams1v.take(t as int), limitn),
            decreases teams1@.len() - t,
        {
            proof {
                crate::teams::lemma_tails_snoc(teams1v, limitn, t as int);
                assert(teams1.deep_view()[t as int] == teams1v[t as int]);
                assert(teams1@[t as int].deep_view() =~= teams1@[t as int]@);
            }
            if teams1[t].len() > limit {
                let ghost prevec = teams1@;
                let ghost predeep = teams1.deep_view();
                proof {
                    assert(forall|jj: int|
                        0 <= jj < t ==> #[trigger] predeep[jj] == crate::teams::trim_team(
                            teams1v[jj],
                            limitn,
                        ));
                    assert(forall|jj: int|
                        0 <= jj < prevec.len() ==> #[trigger] predeep[jj] == prevec[
                            jj
                        ].deep_view());
                }
                let mut tm = teams1.remove(t);
                let mut tail = tm.split_off(limit);
                teams1.insert(t, tm);
                proof {
                    assert(teams1@ =~= prevec.update(t as int, tm));
                    assert(tail@ =~= crate::teams::tail_team(teams1v[t as int], limitn));
                    assert(tm@ =~= crate::teams::trim_team(teams1v[t as int], limitn));
                    assert(teams1.deep_view()[t as int] =~= tm@);
                    assert forall|jj: int|
                        0 <= jj < teams1@.len() && jj != t implies teams1.deep_view()[jj]
                        == prevec[jj].deep_view() by {
                        assert(teams1@[jj] == prevec[jj]);
                    }
                }
                displaced.append(&mut tail);
                proof {
                    assert(displaced@ =~= d1v + crate::teams::tails_of(
                        teams1v.take(t + 1),
                        limitn,
                    ));
                    assert forall|jj: int|
                        0 <= jj <= t implies teams1.deep_view()[jj] == crate::teams::trim_team(
                        teams1v[jj],
                        limitn,
                    ) by {
                        if jj < t {
                            assert(teams1.deep_view()[jj] == prevec[jj].deep_view());
                            assert(predeep[jj] == prevec[jj].deep_view());
                            assert(predeep[jj] == crate::teams::trim_team(teams1v[jj], limitn));
                        } else {
                            assert(teams1.deep_view()[t as int] == tm@);
                        }
                    }
                }
            } else {
                proof {
                    assert(crate::teams::trim_team(teams1v[t as int], limitn)
                        == teams1v[t as int]);
                    assert(crate::teams::tail_team(teams1v[t as int], limitn)
                        =~= Seq::<PlayerId>::empty());
                    assert(displaced@ =~= d1v + crate::teams::tails_of(
                        teams1v.take(t + 1),
                        limitn,
                    ));
                    assert forall|jj: int|
                        0 <= jj <= t implies teams1.deep_view()[jj] == crate::teams::trim_team(
                        teams1v[jj],
                        limitn,
                    ) by {
                        if jj == t {
                            assert(teams1.deep_view()[t as int] == teams1v[t as int]);
                        }
                    }
                }
            }
            t += 1;
        }
        let ghost teams2v = crate::teams::trim_all(teams1v, limitn);
        let ghost dall = d1v + crate::teams::tails_of(teams1v, limitn);
        proof {
            assert(teams1v.take(teams1v.len() as int) =~= teams1v);
            assert(displaced@ =~= dall);
            assert(teams1.deep_view() =~~= teams2v);
            laws::lemma_reshuffled(d, old_count as int, nsv);
        }
        // greedy placement, first-in first-out
        let mut j: usize = 0;
        while j < displaced.len()
            invariant
                j <= displaced@.len(),
                displaced@ == dall,
                teams1v.len() >= 1,
                teams2v.len() == teams1v.len(),
                teams1@.len() == teams1v.len(),
                teams1.deep_view() =~~= crate::teams::place_all(teams2v, dall.take(j as int)),
            decreases displaced@.len() - j,
        {
            proof {
                crate::teams::lemma_place_all(teams2v, dall.take(j as int), pid);
            }
            let ti = crate::teams::smallest_team_index(&teams1);
            let mut tm = teams1.remove(ti);
            tm.push(displaced[j]);
            teams1.insert(ti, tm);
            proof {
                let prev = crate::teams::place_all(teams2v, dall.take(j as int));
                assert(dall.take(j + 1).drop_last() =~= dall.take(j as int));
                assert(dall.take(j + 1).last() == dall[j as int]);
                assert(teams1.deep_view() =~~= crate::teams::place_one(prev, dall[j as int]));
                assert(teams1.deep_view() =~~= crate::teams::place_all(teams2v, dall.take(
                    j + 1,
                )));
            }
            j += 1;
        }
        proof {
            assert(dall.take(dall.len() as int) =~= dall);
            assert(teams1.deep_view() =~~= crate::model::reshuffled(d, old_count as int, nsv));
        }
        // commit and tell the lobby
        let recipients = roster_vec(&teams1);
        let l2 = Lobby {
            id: l.id,
            settings: clone_settings(&ns),
            leader: l.leader,
            players: teams1,
            lobby_state: LobbyState::Normal,
        };
        proof {
            assert(l2.deep_view() =~~= spec_r.0.lobbies[lid.0]);
        }
        self.lobbies.insert(lid.0, l2);
        acts.push(Action::Broadcast(recipients, MessageFromServer::SettingsUpdated(ns)));
        proof {
            laws::lemma_inv_update_settings(old(self)@, pid, nsv);
            assert(final(self)@ =~~= spec_r.0);
            assert(acts.deep_view() =~~= spec_r.1);
            assert forall|jj: int|
                0 <= jj < self.lobbies.vs@.len() implies lobby_rep_wf(
                #[trigger] self.lobbies.vs@[jj],
            ) by {
                if jj != crate::idmap::find_key(old(self).lobbies.ks@, lid.0) {
                    assert(self.lobbies.vs@[jj] == old(self).lobbies.vs@[jj]);
                }
            }
        }
        acts
    }
}

/// Whether the catalog contains this champion name.
fn catalog_contains(v: &Vec<String>, c: &String) -> (r: bool)
    ensures
        r == v.deep_view().contains(c@),
{
    let mut i: usize = 0;
    while i < v.len()
        invariant
            i <= v@.len(),
            forall|j: int| 0 <= j < i ==> v@[j]@ != c@,
        decreases v@.len() - i,
    {
        if v[i] == *c {
            proof {
                assert(v.deep_view()[i as int] == c@);
            }
            return true;
        }
        i += 1;
    }
    proof {
        if v.deep_view().contains(c@) {
            let j = choose|j: int| 0 <= j < v@.len() && v.deep_view()[j] == c@;
            assert(v@[j]@ == c@);
        }
    }
    false
}

impl ServerState {
    /// The leader opens champion selection: a fresh catalog and one empty
    /// choice per member.
    pub fn enter_champ_select(&mut self, pid: PlayerId) -> (acts: Vec<Action>)
        requires
            old(self).wf(),
        ensures
            final(self).wf(),
            (final(self)@, acts.deep_view()) == crate::model::enter_champ_select_spec(
                old(self)@,
                pid,
            ),
    {
        let ghost spec_r = crate::model::enter_champ_select_spec(old(self)@, pid);
        let mut acts: Vec<Action> = Vec::new();
        let pi = match self.players.index_of(pid.0) {
            None => {
                proof {
                    assert(acts.deep_view() =~= spec_r.1);
                }
                return acts;
            },
            Some(pi) => pi,
        };
        let lid = match self.players.val_at(pi).in_lobby {
            None => {
                acts.push(refuse_action(pid, "You are not in a lobby."));
                proof {
                    assert(acts.deep_view() =~~= spec_r.1);
                }
                return acts;
            },
            Some(lid) => lid,
        };
        let li = match self.lobbies.index_of(lid.0) {
            None => {
                acts.push(refuse_action(pid, "That lobby does not exist."));
                proof {
                    assert(acts.deep_view() =~~= spec_r.1);
                }
                return acts;
            },
            Some(li) => li,
        };
        let l = self.lobbies.val_at(li);
        proof {
            self.lobbies.lemma_at(li as int);
        }
        if !matches!(l.lobby_state, LobbyState::Normal) {
            acts.push(refuse_action(pid, "Lobby is in invalid state."));
            proof {
                assert(acts.deep_view() =~~= spec_r.1);
            }
            return acts;
        }
        if !(l.leader == pid) {
            acts.push(refuse_action(pid, "You are not the lobby leader."));
            proof {
                assert(acts.deep_view() =~~= spec_r.1);
            }
            return acts;
        }
        let ghost d = l.players.deep_view();
        let members = roster_vec(&l.players);
        let mut sel: IdMap<Option<ChampionSelection>> = IdMap::new();
        let mut k: usize = 0;
        while k < members.len()
            invariant
                k <= members@.len(),
                sel.wf(),
                sel.deep_view() == crate::teams::init_selected(
                    members@.take(k as int),
                    None::<crate::types::ChampionSelectionV>,
                ),
            decreases members@.len() - k,
        {
            sel.insert(members[k].0, None);
            proof {
                assert(members@.take(k + 1).drop_last() =~= members@.take(k as int));
                assert(members@.take(k + 1).last() == members@[k as int]);
            }
            k += 1;
        }
        proof {
            assert(members@.take(members@.len() as int) =~= members@);
        }
        let cs = ChampSelectState {
            available_champs: crate::textnum::champ_catalog_vec(),
            selected_champs: sel,
        };
        let l2 = Lobby {
            id: l.id,
            settings: clone_settings(&l.settings),
            leader: l.leader,
            players: clone_teams(&l.players),
            lobby_state: LobbyState::ChampSelect(cs),
        };
        proof {
            assert(l2.deep_view() =~~= spec_r.0.lobbies[lid.0]);
        }
        self.lobbies.insert(lid.0, l2);
        acts.push(Action::Broadcast(members, MessageFromServer::ChampSelectEntered));
        proof {
            laws::lemma_inv_enter_champ_select(old(self)@, pid);
            assert(final(self)@ =~~= spec_r.0);
            assert(acts.deep_view() =~~= spec_r.1);
            assert forall|j: int|
                0 <= j < self.lobbies.vs@.len() implies lobby_rep_wf(
                #[trigger] self.lobbies.vs@[j],
            ) by {
                if j != crate::idmap::find_key(old(self).lobbies.ks@, lid.0) {
                    assert(self.lobbies.vs@[j] == old(self).lobbies.vs@[j]);
                }
            }
        }
        acts
    }

    /// Choose a champion during champion selection.
    pub fn select_champion(&mut self, pid: PlayerId, champion: String) -> (acts: Vec<Action>)
        requires
            old(self).wf(),
        ensures
            final(self).wf(),
            (final(self)@, acts.deep_view()) == crate::model::select_champion_spec(
                old(self)@,
                pid,
                champion@,
            ),
    {
        let ghost spec_r = crate::model::select_champion_spec(old(self)@, pid, champion@);
        let mut acts: Vec<Action> = Vec::new();
        let pi = match self.players.index_of(pid.0) {
            None => {
                proof {
                    assert(acts.deep_view() =~= spec_r.1);
                }
                return acts;
            },
            Some(pi) => pi,
        };
        let lid = match self.players.val_at(pi).in_lobby {
            None => {
                acts.push(refuse_action(pid, "You are not in a lobby."));
                proof {
                    assert(acts.deep_view() =~~= spec_r.1);
                }
                return acts;
            },
            Some(lid) => lid,
        };
        let li = match self.lobbies.index_of(lid.0) {
            None => {
                acts.push(refuse_action(pid, "That lobby does not exist."));
                proof {
                    assert(acts.deep_view() =~~= spec_r.1);
                }
                return acts;
            },
            Some(li) => li,
        };
        let l = self.lobbies.val_at(li);
        proof {
            self.lobbies.lemma_at(li as int);
            assert(lobby_rep_wf(*l));
        }
        match &l.lobby_state {
            LobbyState::ChampSelect(cs) => {
                if !catalog_contains(&cs.available_champs, &champion) {
                    acts.push(refuse_action(pid, "That champion does not exist."));
                    proof {
                        assert(acts.deep_view() =~~= spec_r.1);
                    }
                    return acts;
                }
                let locked = match cs.selected_champs.get(pid.0) {
                    Some(sel_opt) => match sel_opt {
                        Some(chosen) => chosen.locked,
                        None => false,
                    },
                    None => {
                        proof {
                            laws::lemma_member_has_entry(self@, lid.0, pid);
                        }
                        false
                    },
                };
                if locked {
                    acts.push(refuse_action(pid, "You cannot change locked selection."));
                    proof {
                        assert(acts.deep_view() =~~= spec_r.1);
                    }
                    return acts;
                }
                let mut sel2 = clone_selected(&cs.selected_champs);
                sel2.insert(
                    pid.0,
                    Some(ChampionSelection { champion: champion.clone(), locked: false }),
                );
                let cs2 = ChampSelectState {
                    available_champs: clone_strings(&cs.available_champs),
                    selected_champs: sel2,
                };
                let members = roster_vec(&l.players);
                let l2 = Lobby {
                    id: l.id,
                    settings: clone_settings(&l.settings),
                    leader: l.leader,
                    players: clone_teams(&l.players),
                    lobby_state: LobbyState::ChampSelect(cs2),
                };
                proof {
                    assert(l2.deep_view() =~~= spec_r.0.lobbies[lid.0]);
                }
                self.lobbies.insert(lid.0, l2);
                acts.push(
                    Action::Broadcast(
                        members,
                        MessageFromServer::PlayerSelectedChampion(pid, champion),
                    ),
                );
                proof {
                    laws::lemma_inv_select_champion(old(self)@, pid, champion@);
                    assert(final(self)@ =~~= spec_r.0);
                    assert(acts.deep_view() =~~= spec_r.1);
                    assert forall|j: int|
                        0 <= j < self.lobbies.vs@.len() implies lobby_rep_wf(
                        #[trigger] self.lobbies.vs@[j],
                    ) by {
                        if j != crate::idmap::find_key(old(self).lobbies.ks@, lid.0) {
                            assert(self.lobbies.vs@[j] == old(self).lobbies.vs@[j]);
                        }
                    }
                }
                acts
            },
            _ => {
                acts.push(refuse_action(pid, "Lobby is in invalid state."));
                proof {
                    assert(acts.deep_view() =~~= spec_r.1);
                }
                acts
            },
        }
    }
}

/// Whether every entry of the table is a locked choice.
fn all_locked_exec(m: &IdMap<Option<ChampionSelection>>) -> (r: bool)
    requires
        m.wf(),
    ensures
        r == crate::model::all_locked(m.deep_view()),
{
    let n = m.len();
    let mut i: usize = 0;
    while i < n
        invariant
            m.wf(),
            n == m.ks@.len(),
            i <= n,
            forall|j: int|
                0 <= j < i ==> crate::model::is_locked((#[trigger] m.vs@[j]).deep_view()),
        decreases n - i,
    {
        let locked = match m.val_at(i) {
            Some(c) => c.locked,
            None => false,
        };
        proof {
            m.lemma_at(i as int);
        }
        if !locked {
            return false;
        }
        i += 1;
    }
    proof {
        assert forall|k: u128| #[trigger] m.deep_view().contains_key(k) implies crate::model::is_locked(
            m.deep_view()[k],
        ) by {
            m.lemma_dom(k);
            let j = choose|j: int| 0 <= j < m.ks@.len() && m.ks@[j] == k;
            m.lemma_at(j);
        }
    }
    true
}

impl ServerState {
    /// Whether some live game server owns this port.
    fn port_in_use(&self, p: u16) -> (r: bool)
        requires
            self.game_servers.wf(),
        ensures
            r == crate::model::port_used(self@, p),
    {
        let n = self.game_servers.len();
        let mut i: usize = 0;
        while i < n
            invariant
                self.game_servers.wf(),
                n == self.game_servers.ks@.len(),
                i <= n,
                forall|j: int| 0 <= j < i ==> self.game_servers.vs@[j] != p,
            decreases n - i,
        {
            if *self.game_servers.val_at(i) == p {
                proof {
                    self.game_servers.lemma_at(i as int);
                    assert(self@.game_servers.contains_key(self.game_servers.ks@[i as int]));
                    assert(self@.game_servers[self.game_servers.ks@[i as int]] == p);
                }
                return true;
            }
            i += 1;
        }
        proof {
            if crate::model::port_used(self@, p) {
                let k = choose|k: u128|
                    #[trigger] self@.game_servers.contains_key(k) && self@.game_servers[k] == p;
                self.game_servers.lemma_dom(k);
                let j = choose|j: int|
                    0 <= j < self.game_servers.ks@.len() && self.game_servers.ks@[j] == k;
                self.game_servers.lemma_at(j);
            }
        }
        false
    }

    /// The lowest free port of the configured inclusive range.
    fn lowest_free_port(&self) -> (r: Option<u16>)
        requires
            self.game_servers.wf(),
        ensures
            r == crate::model::find_free_port(self@),
    {
        if self.port_start > self.port_end {
            return None;
        }
        let mut p: u16 = self.port_start;
        while p < self.port_end
            invariant
                self.game_servers.wf(),
                self.port_start <= p <= self.port_end,
                crate::model::find_free_port(self@) == crate::model::find_free_from(
                    self@,
                    p as int,
                ),
            decreases self.port_end - p,
        {
            if !self.port_in_use(p) {
                return Some(p);
            }
            p += 1;
        }
        if !self.port_in_use(p) {
            Some(p)
        } else {
            proof {
                assert(crate::model::find_free_from(self@, p as int + 1) is None);
            }
            None
        }
    }

    /// The per-team roster with each player's locked champion, for the
    /// launch message.
    fn build_roster(
        &self,
        teams: &Vec<Vec<PlayerId>>,
        sel: &IdMap<Option<ChampionSelection>>,
    ) -> (r: Vec<Vec<PlayerSelection>>)
        requires
            self.players.wf(),
            sel.wf(),
            forall|t: int, i: int|
                0 <= t < teams.deep_view().len() && 0 <= i < teams.deep_view()[t].len()
                    ==> self.players.deep_view().contains_key(
                    (#[trigger] teams.deep_view()[t][i]).0,
                ) && sel.deep_view().contains_key(teams.deep_view()[t][i].0),
        ensures
            r.deep_view() == crate::model::roster_spec(
                self.players.deep_view(),
                teams.deep_view(),
                sel.deep_view(),
            ),
    {
        let ghost d = teams.deep_view();
        let ghost target = crate::model::roster_spec(
            self.players.deep_view(),
            d,
            sel.deep_view(),
        );
        let mut r: Vec<Vec<PlayerSelection>> = Vec::new();
        let mut t: usize = 0;
        while t < teams.len()
            invariant
                self.players.wf(),
                sel.wf(),
                forall|tt: int, i: int|
                    0 <= tt < d.len() && 0 <= i < d[tt].len() ==> self.players.deep_view(
                    ).contains_key((#[trigger] d[tt][i]).0) && sel.deep_view().contains_key(
                        d[tt][i].0,
                    ),
                d == teams.deep_view(),
                target == crate::model::roster_spec(self.players.deep_view(), d, sel.deep_view()),
                t <= teams@.len(),
                d.len() == teams@.len(),
                r@.len() == t,
                forall|tt: int| 0 <= tt < t ==> (#[trigger] r@[tt]).deep_view() == target[tt],
            decreases teams@.len() - t,
        {
            let team = &teams[t];
            proof {
                assert(team.deep_view() =~= d[t as int]);
            }
            let mut row: Vec<PlayerSelection> = Vec::new();
            let mut i: usize = 0;
            while i < team.len()
                invariant
                    self.players.wf(),
                    sel.wf(),
                    forall|tt: int, ii: int|
                        0 <= tt < d.len() && 0 <= ii < d[tt].len() ==> self.players.deep_view(
                        ).contains_key((#[trigger] d[tt][ii]).0) && sel.deep_view().contains_key(
                            d[tt][ii].0,
                        ),
                    target == crate::model::roster_spec(
                        self.players.deep_view(),
                        d,
                        sel.deep_view(),
                    ),
                    t < d.len(),
                    team.deep_view() == d[t as int],
                    team@.len() == d[t as int].len(),
                    i <= team@.len(),
                    row@.len() == i,
                    forall|ii: int|
                        0 <= ii < i ==> (#[trigger] row@[ii]).deep_view() == target[t as int][ii],
                decreases team@.len() - i,
            {
                let member = team[i];
                proof {
                    assert(d[t as int][i as int] == member);
                }
                let entry = match self.players.get(member.0) {
                    Some(e) => e,
                    None => {
                        proof {
                            assert(false);
                        }
                        return r;
                    },
                };
                let champ = match sel.get(member.0) {
                    Some(sel_opt) => match sel_opt {
                        Some(c) => c.champion.clone(),
                        None => String::new(),
                    },
                    None => {
                        proof {
                            assert(false);
                        }
                        String::new()
                    },
                };
                row.push(PlayerSelection { player: clone_player_info(&entry.info), champion: champ });
                proof {
                    assert(row@[i as int].deep_view() =~~= target[t as int][i as int]);
                }
                i += 1;
            }
            r.push(row);
            proof {
                assert(r@[t as int].deep_view() =~= target[t as int]);
            }
            t += 1;
        }
        proof {
            assert(r.deep_view() =~= target);
        }
        r
    }

    /// Lock the requester's champion choice; when the last member locks,
    /// launch the game server for the lobby, minting the match token.
    pub fn lock_champ_selection(&mut self, pid: PlayerId) -> (acts: Vec<Action>)
        requires
            old(self).wf(),
        ensures
            final(self).wf(),
            exists|token: u128|
                (final(self)@, acts.deep_view()) == crate::model::lock_champ_selection_spec(
                    old(self)@,
                    pid,
                    token,
                ),
    {
        let token = crate::mint::mint_id();
        let acts = self.lock_champ_selection_with_token(pid, token);
        proof {
            assert((final(self)@, acts.deep_view()) == crate::model::lock_champ_selection_spec(
                old(self)@,
                pid,
                token,
            ));
        }
        acts
    }

    /// Force every listed player out of its lobby, first-in first-out,
    /// telling each one.
    fn evacuate_members(&mut self, members: Vec<PlayerId>) -> (acts: Vec<Action>)
        requires
            old(self).wf(),
        ensures
            final(self).wf(),
            (final(self)@, acts.deep_view()) == crate::model::evacuate_list(
                old(self)@,
                members@,
            ),
    {
        let ghost s1 = old(self)@;
        let ghost ms = members@;
        let mut acts: Vec<Action> = Vec::new();
        proof {
            assert(ms.take(0) =~= Seq::<PlayerId>::empty());
            assert(acts.deep_view() =~= Seq::<ActionV>::empty());
        }
        let mut k: usize = 0;
        while k < members.len()
            invariant
                self.wf(),
                k <= ms.len(),
                members@ == ms,
                self@ == crate::model::evacuate_list(s1, ms.take(k as int)).0,
                acts.deep_view() == crate::model::evacuate_list(s1, ms.take(k as int)).1,
            decreases ms.len() - k,
        {
            let m = members[k];
            let ghost prev = crate::model::evacuate_list(s1, ms.take(k as int));
            let mut step_acts: Vec<Action> = Vec::new();
            if self.players.contains(m.0) {
                step_acts.push(Action::Send(m, MessageFromServer::YouLeftLobby));
            }
            proof {
                assert(step_acts.deep_view() =~~= crate::model::send_if_known(
                    prev.0,
                    ms[k as int],
                    crate::types::MessageFromServerV::YouLeftLobby,
                ));
            }
            let ghost send_part = step_acts.deep_view();
            let mut rest = self.handle_player_left_lobby(m);
            proof {
                assert(rest.deep_view() == crate::model::player_left_spec(prev.0, m).1);
            }
            append_actions(&mut step_acts, &mut rest);
            let ghost acts_pre = acts.deep_view();
            append_actions(&mut acts, &mut step_acts);
            proof {
                assert(ms.take(k + 1).drop_last() =~= ms.take(k as int));
                assert(ms.take(k + 1).last() == ms[k as int]);
                let stepped = crate::model::player_left_spec(prev.0, ms[k as int]);
                assert(crate::model::evacuate_list(s1, ms.take(k + 1)).0 == stepped.0);
                assert(crate::model::evacuate_list(s1, ms.take(k + 1)).1 == prev.1
                    + crate::model::send_if_known(
                    prev.0,
                    ms[k as int],
                    crate::types::MessageFromServerV::YouLeftLobby,
                ) + stepped.1);
                assert(acts.deep_view() == acts_pre + (send_part + stepped.1));
                assert(acts.deep_view() =~~= crate::model::evacuate_list(
                    s1,
                    ms.take(k + 1),
                ).1);
            }
            k += 1;
        }
        proof {
            assert(ms.take(ms.len() as int) =~= ms);
        }
        acts
    }

    /// Tell a lobby its game server failed and force every member out;
    /// `members` must be the lobby's roster.
    fn fail_lobby(&mut self, lid: LobbyId, members: Vec<PlayerId>) -> (acts: Vec<Action>)
        requires
            old(self).wf(),
            old(self)@.lobbies.contains_key(lid.0),
            members@ == flat(old(self)@.lobbies[lid.0].players),
        ensures
            final(self).wf(),
            (final(self)@, acts.deep_view()) == crate::model::fail_lobby_spec(old(self)@, lid),
    {
        let ghost s1 = old(self)@;
        let mut acts: Vec<Action> = Vec::new();
        acts.push(
            Action::Broadcast(
                clone_team(&members),
                MessageFromServer::RequestRefused("Failed to start game server".to_owned()),
            ),
        );
        let mut rest = self.evacuate_members(members);
        append_actions(&mut acts, &mut rest);
        proof {
            assert(acts.deep_view() =~~= crate::model::fail_lobby_spec(s1, lid).1);
        }
        acts
    }

    /// A game-server child terminated: recover the lobby (telling it of a
    /// failure), and forget the handle and its port.
    pub fn game_server_exited(&mut self, lid: LobbyId, success: bool) -> (acts: Vec<Action>)
        requires
            old(self).wf(),
        ensures
            final(self).wf(),
            (final(self)@, acts.deep_view()) == crate::model::game_server_exited_spec(
                old(self)@,
                lid,
                success,
            ),
    {
        let ghost spec_r = crate::model::game_server_exited_spec(old(self)@, lid, success);
        let mut acts: Vec<Action> = Vec::new();
        match self.lobbies.index_of(lid.0) {
            None => {
                self.game_servers.remove(lid.0);
                proof {
                    laws::lemma_inv_game_server_exited(old(self)@, lid, success);
                    assert(final(self)@ =~~= spec_r.0);
                    assert(acts.deep_view() =~= spec_r.1);
                }
                acts
            },
            Some(li) => {
                let l = self.lobbies.val_at(li);
                let members = roster_vec(&l.players);
                if !success {
                    acts.push(
                        Action::Broadcast(
                            clone_team(&members),
                            MessageFromServer::RequestRefused(
                                "Failed to start game server".to_owned(),
                            ),
                        ),
                    );
                }
                let mut rest = self.evacuate_members(members);
                append_actions(&mut acts, &mut rest);
                let keep = match self.lobbies.get(lid.0) {
                    Some(l2) => matches!(l2.lobby_state, LobbyState::InGame),
                    None => false,
                };
                if !keep {
                    self.game_servers.remove(lid.0);
                }
                proof {
                    laws::lemma_inv_game_server_exited(old(self)@, lid, success);
                    assert(final(self)@ =~~= spec_r.0);
                    assert(acts.deep_view() =~~= spec_r.1);
                }
                acts
            },
        }
    }

    /// The game server answered the bootstrap: forward each connect token
    /// to its player.
    pub fn game_tokens_generated(&self, pairs: &Vec<(PlayerId, String)>) -> (acts: Vec<Action>)
        requires
            self.wf(),
        ensures
            acts.deep_view() == crate::model::token_sends(self@, pairs.deep_view()),
    {
        let mut acts: Vec<Action> = Vec::new();
        let mut i: usize = 0;
        proof {
            assert(pairs.deep_view().take(0) =~= Seq::<(PlayerId, Seq<char>)>::empty());
        }
        while i < pairs.len()
            invariant
                self.wf(),
                i <= pairs@.len(),
                pairs@.len() == pairs.deep_view().len(),
                acts.deep_view() == crate::model::token_sends(
                    self@,
                    pairs.deep_view().take(i as int),
                ),
            decreases pairs@.len() - i,
        {
            let p = pairs[i].0;
            if self.players.contains(p.0) {
                acts.push(Action::Send(p, MessageFromServer::GameStarted(pairs[i].1.clone())));
            }
            proof {
                assert(pairs.deep_view().take(i + 1).drop_last() =~= pairs.deep_view().take(
                    i as int,
                ));
                assert(pairs.deep_view().take(i + 1).last() == pairs.deep_view()[i as int]);
                assert(pairs.deep_view()[i as int] == (pairs@[i as int].0, pairs@[i as int].1@));
                assert(acts.deep_view() =~~= crate::model::token_sends(
                    self@,
                    pairs.deep_view().take(i + 1),
                ));
            }
            i += 1;
        }
        proof {
            assert(pairs.deep_view().take(pairs.deep_view().len() as int) =~= pairs.deep_view());
        }
        acts
    }

    /// Shut the service down: tell every player, then stop the loop.
    pub fn shutdown(&mut self) -> (acts: Vec<Action>)
        requires
            old(self).wf(),
        ensures
            final(self).wf(),
            (final(self)@, acts.deep_view()) == crate::model::shutdown_spec(old(self)@),
    {
        let ghost spec_r = crate::model::shutdown_spec(old(self)@);
        self.should_exit = true;
        let n = self.players.len();
        let mut rec: Vec<PlayerId> = Vec::new();
        let mut i: usize = 0;
        while i < n
            invariant
                n == self.players.ks@.len(),
                i <= n,
                rec@.len() == i,
                forall|j: int| 0 <= j < i ==> rec@[j] == PlayerId(self.players.ks@[j]),
            decreases n - i,
        {
            rec.push(PlayerId(self.players.key_at(i)));
            i += 1;
        }
        proof {
            assert(rec@ =~= crate::model::ids_of(old(self)@.player_order));
        }
        let mut acts: Vec<Action> = Vec::new();
        acts.push(Action::Broadcast(rec, MessageFromServer::ServerShutdown));
        acts.push(Action::Exit);
        proof {
            laws::lemma_inv_shutdown(old(self)@);
            assert(final(self)@ =~~= spec_r.0);
            assert(acts.deep_view() =~~= spec_r.1);
        }
        acts
    }

    /// Dispatch one client request through the guard protocol.
    pub fn handle_message(&mut self, pid: PlayerId, msg: MessageFromPlayer) -> (acts: Vec<
        Action,
    >)
        requires
            old(self).wf(),
        ensures
            final(self).wf(),
            exists|minted: u128|
                (final(self)@, acts.deep_view()) == crate::model::handle_message_spec(
                    old(self)@,
                    pid,
                    msg,
                    minted,
                ),
    {
        let mut out: Vec<Action> = Vec::new();
        if !self.players.contains(pid.0) {
            proof {
                assert(out.deep_view() =~= Seq::<ActionV>::empty());
                assert((final(self)@, out.deep_view()) == crate::model::handle_message_spec(
                    old(self)@,
                    pid,
                    msg,
                    0,
                ));
            }
            return out;
        }
        match msg {
            MessageFromPlayer::InitialHandshake { .. } => {
                proof {
                    assert(out.deep_view() =~= Seq::<ActionV>::empty());
                    assert((final(self)@, out.deep_view())
                        == crate::model::handle_message_spec(old(self)@, pid, msg, 0));
                }
                out
            },
            MessageFromPlayer::CreateLobby => {
                let acts = self.create_lobby(pid);
                proof {
                    let m0 = choose|m0: u128|
                        (final(self)@, acts.deep_view()) == crate::model::create_lobby_spec(
                            old(self)@,
                            pid,
                            m0,
                        );
                    assert((final(self)@, acts.deep_view())
                        == crate::model::handle_message_spec(old(self)@, pid, msg, m0));
                }
                acts
            },
            MessageFromPlayer::JoinLobby(lid) => {
                let acts = self.join_lobby(pid, lid);
                proof {
                    assert((final(self)@, acts.deep_view())
                        == crate::model::handle_message_spec(old(self)@, pid, msg, 0));
                }
                acts
            },
            MessageFromPlayer::LeaveLobby => {
                let acts = self.leave_lobby(pid);
                proof {
                    assert((final(self)@, acts.deep_view())
                        == crate::model::handle_message_spec(old(self)@, pid, msg, 0));
                }
                acts
            },
            MessageFromPlayer::SwitchTeam(target, team) => {
                let acts = self.switch_team(pid, target, team);
                proof {
                    assert((final(self)@, acts.deep_view())
                        == crate::model::handle_message_spec(old(self)@, pid, msg, 0));
                }
                acts
            },
            MessageFromPlayer::SwitchPlaces(a, b) => {
                let acts = self.switch_places(pid, a, b);
                proof {
                    assert((final(self)@, acts.deep_view())
                        == crate::model::handle_message_spec(old(self)@, pid, msg, 0));
                }
                acts
            },
            MessageFromPlayer::GetLobbyInfo(lid) => {
                let acts = self.get_lobby_info(pid, lid);
                proof {
                    assert((final(self)@, acts.deep_view())
                        == crate::model::handle_message_spec(old(self)@, pid, msg, 0));
                }
                acts
            },
            MessageFromPlayer::GetLobbyList => {
                let acts = self.get_lobby_list(pid);
                proof {
                    assert((final(self)@, acts.deep_view())
                        == crate::model::handle_message_spec(old(self)@, pid, msg, 0));
                }
                acts
            },
            MessageFromPlayer::GetPlayerInfo(target) => {
                let acts = self.get_player_info(pid, target);
                proof {
                    assert((final(self)@, acts.deep_view())
                        == crate::model::handle_message_spec(old(self)@, pid, msg, 0));
                }
                acts
            },
            MessageFromPlayer::KickPlayer(target) => {
                let acts = self.kick_player(pid, target);
                proof {
                    assert((final(self)@, acts.deep_view())
                        == crate::model::handle_message_spec(old(self)@, pid, msg, 0));
                }
                acts
            },
            MessageFromPlayer::UpdateSettings(ns) => {
                let ghost msg_snapshot = msg;
                let ghost nsv = ns.deep_view();
                let acts = self.update_settings(pid, ns);
                proof {
                    assert((final(self)@, acts.deep_view())
                        == crate::model::handle_message_spec(old(self)@, pid, msg_snapshot, 0));
                }
                acts
            },
            MessageFromPlayer::EnterChampSelect => {
                let acts = self.enter_champ_select(pid);
                proof {
                    assert((final(self)@, acts.deep_view())
                        == crate::model::handle_message_spec(old(self)@, pid, msg, 0));
                }
                acts
            },
            MessageFromPlayer::SelectChampion(c) => {
                let ghost msg_snapshot = msg;
                let acts = self.select_champion(pid, c);
                proof {
                    assert((final(self)@, acts.deep_view())
                        == crate::model::handle_message_spec(old(self)@, pid, msg_snapshot, 0));
                }
                acts
            },
            MessageFromPlayer::LockChampSelection => {
                let acts = self.lock_champ_selection(pid);
                proof {
                    let m0 = choose|m0: u128|
                        (final(self)@, acts.deep_view())
                            == crate::model::lock_champ_selection_spec(old(self)@, pid, m0);
                    assert((final(self)@, acts.deep_view())
                        == crate::model::handle_message_spec(old(self)@, pid, msg, m0));
                }
                acts
            },
            MessageFromPlayer::StartGame => {
                out.push(refuse_action(pid, "Invalid request."));
                proof {
                    assert(out.deep_view() =~~= crate::model::handle_message_spec(
                        old(self)@,
                        pid,
                        msg,
                        0,
                    ).1);
                    assert((final(self)@, out.deep_view())
                        == crate::model::handle_message_spec(old(self)@, pid, msg, 0));
                }
                out
            },
            MessageFromPlayer::Disconnecting => {
                out.push(Action::DropConnection(pid));
                proof {
                    assert(out.deep_view() =~~= crate::model::handle_message_spec(
                        old(self)@,
                        pid,
                        msg,
                        0,
                    ).1);
                    assert((final(self)@, out.deep_view())
                        == crate::model::handle_message_spec(old(self)@, pid, msg, 0));
                }
                out
            },
        }
    }

    /// Process one event of the loop to completion.
    pub fn handle_event(&mut self, ev: Event) -> (acts: Vec<Action>)
        requires
            old(self).wf(),
        ensures
            final(self).wf(),
            exists|minted: u128|
                (final(self)@, acts.deep_view()) == crate::model::handle_event_spec(
                    old(self)@,
                    ev,
                    minted,
                ),
    {
        match ev {
            Event::PlayerNameUpdated(pid, name) => {
                let ghost ev_snapshot = ev;
                let acts = self.player_name_updated(pid, name);
                proof {
                    assert((final(self)@, acts.deep_view()) == crate::model::handle_event_spec(
                        old(self)@,
                        ev_snapshot,
                        0,
                    ));
                }
                acts
            },
            Event::MessageReceived(pid, msg) => {
                let ghost ev_snapshot = ev;
                let acts = self.handle_message(pid, msg);
                proof {
                    let m0 = choose|m0: u128|
                        (final(self)@, acts.deep_view())
                            == crate::model::handle_message_spec(
                            old(self)@,
                            pid,
                            ev_snapshot->MessageReceived_1,
                            m0,
                        );
                    assert((final(self)@, acts.deep_view()) == crate::model::handle_event_spec(
                        old(self)@,
                        ev_snapshot,
                        m0,
                    ));
                }
                acts
            },
            Event::ConnectionLost(pid) => {
                let acts = self.connection_lost(pid);
                proof {
                    assert((final(self)@, acts.deep_view()) == crate::model::handle_event_spec(
                        old(self)@,
                        ev,
                        0,
                    ));
                }
                acts
            },
            Event::GameTokensGenerated(pairs) => {
                let ghost ev_snapshot = ev;
                let acts = self.game_tokens_generated(&pairs);
                proof {
                    assert((final(self)@, acts.deep_view()) == crate::model::handle_event_spec(
                        old(self)@,
                        ev_snapshot,
                        0,
                    ));
                }
                acts
            },
            Event::GameServerExited(lid, success) => {
                let acts = self.game_server_exited(lid, success);
                proof {
                    assert((final(self)@, acts.deep_view()) == crate::model::handle_event_spec(
                        old(self)@,
                        ev,
                        0,
                    ));
                }
                acts
            },
            Event::Shutdown => {
                let acts = self.shutdown();
                proof {
                    assert((final(self)@, acts.deep_view()) == crate::model::handle_event_spec(
                        old(self)@,
                        ev,
                        0,
                    ));
                }
                acts
            },
        }
    }

    /// The deterministic core of `lock_champ_selection`, for a given match
    /// token.
    #[verifier::rlimit(80)]
    pub fn lock_champ_selection_with_token(&mut self, pid: PlayerId, token: u128) -> (acts: Vec<
        Action,
    >)
        requires
            old(self).wf(),
        ensures
            final(self).wf(),
            (final(self)@, acts.deep_view()) == crate::model::lock_champ_selection_spec(
                old(self)@,
                pid,
                token,
            ),
    {
        let ghost spec_r = crate::model::lock_champ_selection_spec(old(self)@, pid, token);
        let mut acts: Vec<Action> = Vec::new();
        let pi = match self.players.index_of(pid.0) {
            None => {
                proof {
                    assert(acts.deep_view() =~= spec_r.1);
                }
                return acts;
            },
            Some(pi) => pi,
        };
        let lid = match self.players.val_at(pi).in_lobby {
            None => {
                acts.push(refuse_action(pid, "You are not in a lobby."));
                proof {
                    assert(acts.deep_view() =~~= spec_r.1);
                }
                return acts;
            },
            Some(lid) => lid,
        };
        let li = match self.lobbies.index_of(lid.0) {
            None => {
                acts.push(refuse_action(pid, "That lobby does not exist."));
                proof {
                    assert(acts.deep_view() =~~= spec_r.1);
                }
                return acts;
            },
            Some(li) => li,
        };
        let l = self.lobbies.val_at(li);
        proof {
            self.lobbies.lemma_at(li as int);
            assert(lobby_rep_wf(*l));
            assert(crate::model::lobby_ok(self@, lid.0));
        }
        match &l.lobby_state {
            LobbyState::ChampSelect(cs) => {
                let (champ, has_choice) = match cs.selected_champs.get(pid.0) {
                    Some(sel_opt) => match sel_opt {
                        Some(chosen) => (chosen.champion.clone(), true),
                        None => (String::new(), false),
                    },
                    None => {
                        proof {
                            laws::lemma_member_has_entry(self@, lid.0, pid);
                        }
                        (String::new(), false)
                    },
                };
                if !has_choice {
                    acts.push(refuse_action(pid, "Cannot lock empty selection."));
                    proof {
                        assert(acts.deep_view() =~~= spec_r.1);
                    }
                    return acts;
                }
                let mut sel2 = clone_selected(&cs.selected_champs);
                sel2.insert(pid.0, Some(ChampionSelection { champion: champ, locked: true }));
                let start = all_locked_exec(&sel2);
                let members = roster_vec(&l.players);
                let teams_clone = clone_teams(&l.players);
                let roster = if start {
                    proof {
                        assert forall|t: int, i: int|
                            0 <= t < teams_clone.deep_view().len() && 0 <= i
                                < teams_clone.deep_view()[t].len() implies self.players.deep_view(
                        ).contains_key((#[trigger] teams_clone.deep_view()[t][i]).0)
                            && sel2.deep_view().contains_key(teams_clone.deep_view()[t][i].0) by {
                            let d = l.players.deep_view();
                            let p = d[t][i];
                            assert(crate::model::member_entry_ok(self@, lid.0, p));
                            assert(d[t].contains(p));
                            crate::teams::lemma_member_team(d, p);
                            assert(crate::teams::is_member(d, p));
                        }
                    }
                    Some(self.build_roster(&teams_clone, &sel2))
                } else {
                    None
                };
                let l2 = Lobby {
                    id: l.id,
                    settings: clone_settings(&l.settings),
                    leader: l.leader,
                    players: teams_clone,
                    lobby_state: LobbyState::ChampSelect(
                        ChampSelectState {
                            available_champs: clone_strings(&cs.available_champs),
                            selected_champs: sel2,
                        },
                    ),
                };
                proof {
                    assert(l2.deep_view() =~~= crate::model::lock_lobby_after(
                        old(self)@,
                        pid,
                        lid,
                    ));
                }
                self.lobbies.insert(lid.0, l2);
                proof {
                    laws::lemma_inv_set_selection(
                        old(self)@,
                        lid.0,
                        pid,
                        Some(
                            crate::types::ChampionSelectionV {
                                champion: crate::model::sel_champ(
                                    old(self)@.lobbies[lid.0].lobby_state->ChampSelect_0
                                        .selected_champs[pid.0],
                                ),
                                locked: true,
                            },
                        ),
                    );
                    assert forall|j: int|
                        0 <= j < self.lobbies.vs@.len() implies lobby_rep_wf(
                        #[trigger] self.lobbies.vs@[j],
                    ) by {
                        if j != crate::idmap::find_key(old(self).lobbies.ks@, lid.0) {
                            assert(self.lobbies.vs@[j] == old(self).lobbies.vs@[j]);
                        }
                    }
                    assert(self.wf());
                }
                let ghost s1 = self@;
                proof {
                    assert(s1 =~~= crate::model::lock_mid_state(old(self)@, pid, lid));
                    assert(s1 == crate::model::lock_mid_state(old(self)@, pid, lid));
                }
                // the lobby hears about the lock before any launch
                acts.push(
                    Action::Broadcast(
                        clone_team(&members),
                        MessageFromServer::ChampSelectionLocked(pid),
                    ),
                );
                let ghost bc_part = acts.deep_view();
                proof {
                    assert(bc_part =~~= seq![
                        ActionV::Broadcast(
                            flat(crate::model::lock_lobby_after(old(self)@, pid, lid).players),
                            MessageFromServerV::ChampSelectionLocked(pid),
                        ),
                    ]);
                }
                if start {
                    let port_opt = self.lowest_free_port();
                    match port_opt {
                        Some(port) => {
                            let li2 = match self.lobbies.index_of(lid.0) {
                                Some(li2) => li2,
                                None => {
                                    proof {
                                        self.lobbies.lemma_dom(lid.0);
                                        assert(false);
                                    }
                                    0
                                },
                            };
                            let lref = self.lobbies.val_at(li2);
                            let l3 = Lobby {
                                id: lref.id,
                                settings: clone_settings(&lref.settings),
                                leader: lref.leader,
                                players: clone_teams(&lref.players),
                                lobby_state: LobbyState::InGame,
                            };
                            let roster_v = match roster {
                                Some(r) => r,
                                None => {
                                    proof {
                                        assert(false);
                                    }
                                    Vec::new()
                                },
                            };
                            proof {
                                self.lobbies.lemma_at(li2 as int);
                                assert(l3.deep_view() =~~= (crate::types::LobbyV {
                                    lobby_state: crate::types::LobbyStateV::InGame,
                                    ..s1.lobbies[lid.0]
                                }));
                            }
                            self.game_servers.insert(lid.0, port);
                            self.lobbies.insert(lid.0, l3);
                            acts.push(
                                Action::LaunchGameServer {
                                    lobby: lid,
                                    port,
                                    token,
                                    roster: roster_v,
                                },
                            );
                            proof {
                                laws::lemma_inv_start_game(s1, lid, token);
                                assert(final(self)@ =~~= crate::model::start_game_spec(
                                    s1,
                                    lid,
                                    token,
                                ).0);
                                assert forall|j: int|
                                    0 <= j < self.lobbies.vs@.len() implies lobby_rep_wf(
                                    #[trigger] self.lobbies.vs@[j],
                                ) by {
                                    if j != crate::idmap::find_key(old(self).lobbies.ks@, lid.0) {
                                        assert(self.lobbies.vs@[j] == old(self).lobbies.vs@[j]);
                                    }
                                }
                            }
                        },
                        None => {
                            let mut rest = self.fail_lobby(lid, members);
                            append_actions(&mut acts, &mut rest);
                            proof {
                                assert(acts.deep_view() =~~= bc_part
                                    + crate::model::fail_lobby_spec(s1, lid).1);
                            }
                        },
                    }
                }
                proof {
                    assert(final(self)@ =~~= spec_r.0);
                    assert(acts.deep_view() =~~= spec_r.1);
                }
                acts
            },
            _ => {
                acts.push(refuse_action(pid, "Lobby is in invalid state."));
                proof {
                    assert(acts.deep_view() =~~= spec_r.1);
                }
                acts
            },
        }
    }
}

/// Append `src` to `dst`, draining `src`.
pub fn append_actions(dst: &mut Vec<Action>, src: &mut Vec<Action>)
    ensures
        final(dst).deep_view() == old(dst).deep_view() + old(src).deep_view(),
        final(src)@.len() == 0,
{
    let ghost dst0 = dst@;
    let ghost src0 = src@;
    dst.append(src);
    proof {
        assert forall|i: int|
            0 <= i < dst@.len() implies #[trigger] dst.deep_view()[i] == (old(dst).deep_view()
            + old(src).deep_view())[i] by {
            if i < dst0.len() {
                assert(dst@[i] == dst0[i]);
            } else {
                assert(dst@[i] == src0[i - dst0.len()]);
            }
        }
        assert(dst.deep_view() =~= old(dst).deep_view() + old(src).deep_view());
    }
}

impl ServerState {
    /// How many lobbies exist.
    pub fn lobby_count(&self) -> (r: usize)
        ensures
            r == self@.lobby_order.len(),
    {
        self.lobbies.len()
    }

    /// How many players are connected.
    pub fn player_count(&self) -> (r: usize)
        ensures
            r == self@.player_order.len(),
    {
        self.players.len()
    }

    /// The id of the `i`-th lobby in creation order.
    pub fn lobby_id_at(&self, i: usize) -> (r: LobbyId)
        requires
            i < self@.lobby_order.len(),
        ensures
            r == LobbyId(self@.lobby_order[i as int]),
    {
        LobbyId(self.lobbies.key_at(i))
    }

    /// The lobby a player is in, if any.
    pub fn lobby_of(&self, pid: PlayerId) -> (r: Option<LobbyId>)
        requires
            self.wf(),
        ensures
            r == if self@.players.contains_key(pid.0) {
                self@.players[pid.0].in_lobby
            } else {
                Option::<LobbyId>::None
            },
    {
        match self.players.get(pid.0) {
            Some(e) => e.in_lobby,
            None => None,
        }
    }

    /// The leader of a lobby, if the lobby exists.
    pub fn leader_of(&self, lid: LobbyId) -> (r: Option<PlayerId>)
        requires
            self.wf(),
        ensures
            r == if self@.lobbies.contains_key(lid.0) {
                Some(self@.lobbies[lid.0].leader)
            } else {
                Option::<PlayerId>::None
            },
    {
        match self.lobbies.get(lid.0) {
            Some(l) => Some(l.leader),
            None => None,
        }
    }

    /// A snapshot of a lobby's teams, if the lobby exists.
    pub fn teams_of(&self, lid: LobbyId) -> (r: Option<Vec<Vec<PlayerId>>>)
        requires
            self.wf(),
        ensures
            match r {
                Some(ts) => self@.lobbies.contains_key(lid.0) && ts.deep_view()
                    == self@.lobbies[lid.0].players,
                None => !self@.lobbies.contains_key(lid.0),
            },
    {
        match self.lobbies.get(lid.0) {
            Some(l) => Some(clone_teams(&l.players)),
            None => None,
        }
    }

    /// The port of a lobby's live game server, if one runs.
    pub fn game_server_port(&self, lid: LobbyId) -> (r: Option<u16>)
        requires
            self.wf(),
        ensures
            r == if self@.game_servers.contains_key(lid.0) {
                Some(self@.game_servers[lid.0])
            } else {
                Option::<u16>::None
            },
    {
        match self.game_servers.get(lid.0) {
            Some(p) => Some(*p),
            None => None,
        }
    }
}

/// The uniform refusal reply of the validation protocol.
pub fn refuse_action(pid: PlayerId, reason: &str) -> (a: Action)
    ensures
        a.deep_view() == ActionV::Send(pid, MessageFromServerV::RequestRefused(reason@)),
{
    Action::Send(pid, MessageFromServer::RequestRefused(reason.to_owned()))
}

// ---------------------------------------------------------------------
// Deep copies of the record types (the contracts keep the views equal)
// ---------------------------------------------------------------------

pub fn clone_player_info(p: &PlayerInfo) -> (r: PlayerInfo)
    ensures
        r.deep_view() == p.deep_view(),
{
    PlayerInfo { id: p.id, name: p.name.clone() }
}

pub fn clone_settings(s: &LobbySettings) -> (r: LobbySettings)
    ensures
        r.deep_view() == s.deep_view(),
{
    LobbySettings {
        name: s.name.clone(),
        map_name: s.map_name.clone(),
        team_count: s.team_count,
        player_limit_per_team: s.player_limit_per_team,
        players_can_change_team: s.players_can_change_team,
        lobby_is_open: s.lobby_is_open,
    }
}

pub fn clone_team(v: &Vec<PlayerId>) -> (r: Vec<PlayerId>)
    ensures
        r@ == v@,
{
    let mut r: Vec<PlayerId> = Vec::new();
    let mut i: usize = 0;
    while i < v.len()
        invariant
            i <= v@.len(),
            r@ == v@.take(i as int),
        decreases v@.len() - i,
    {
        r.push(v[i]);
        proof {
            assert(v@.take(i + 1) =~= v@.take(i as int).push(v@[i as int]));
        }
        i += 1;
    }
    proof {
        assert(v@.take(v@.len() as int) =~= v@);
    }
    r
}

pub fn clone_teams(v: &Vec<Vec<PlayerId>>) -> (r: Vec<Vec<PlayerId>>)
    ensures
        r.deep_view() == v.deep_view(),
        r@.len() == v@.len(),
{
    let mut r: Vec<Vec<PlayerId>> = Vec::new();
    let mut i: usize = 0;
    while i < v.len()
        invariant
            i <= v@.len(),
            r@.len() == i,
            forall|j: int| 0 <= j < i ==> (#[trigger] r@[j])@ == v@[j]@,
        decreases v@.len() - i,
    {
        r.push(clone_team(&v[i]));
        i += 1;
    }
    proof {
        assert(r.deep_view() =~= v.deep_view());
    }
    r
}

pub fn clone_strings(v: &Vec<String>) -> (r: Vec<String>)
    ensures
        r.deep_view() == v.deep_view(),
{
    let mut r: Vec<String> = Vec::new();
    let mut i: usize = 0;
    while i < v.len()
        invariant
            i <= v@.len(),
            r@.len() == i,
            forall|j: int| 0 <= j < i ==> (#[trigger] r@[j])@ == v@[j]@,
        decreases v@.len() - i,
    {
        r.push(v[i].clone());
        i += 1;
    }
    proof {
        assert(r.deep_view() =~= v.deep_view());
    }
    r
}

pub fn clone_selection(o: &Option<ChampionSelection>) -> (r: Option<ChampionSelection>)
    ensures
        r.deep_view() == o.deep_view(),
{
    match o {
        Some(c) => Some(ChampionSelection { champion: c.champion.clone(), locked: c.locked }),
        None => None,
    }
}

pub fn clone_selected(m: &IdMap<Option<ChampionSelection>>) -> (r: IdMap<
    Option<ChampionSelection>,
>)
    requires
        m.wf(),
    ensures
        r.wf(),
        r.deep_view() == m.deep_view(),
        r.key_seq() == m.key_seq(),
{
    let mut ks: Vec<u128> = Vec::new();
    let mut vs: Vec<Option<ChampionSelection>> = Vec::new();
    let mut i: usize = 0;
    while i < m.ks.len()
        invariant
            m.wf(),
            i <= m.ks@.len(),
            ks@ == m.ks@.take(i as int),
            vs@.len() == i,
            forall|j: int| 0 <= j < i ==> (#[trigger] vs@[j]).deep_view() == m.vs@[j].deep_view(),
        decreases m.ks@.len() - i,
    {
        ks.push(m.ks[i]);
        vs.push(clone_selection(&m.vs[i]));
        proof {
            assert(m.ks@.take(i + 1) =~= m.ks@.take(i as int).push(m.ks@[i as int]));
        }
        i += 1;
    }
    proof {
        assert(ks@ =~= m.ks@);
    }
    let r = IdMap { ks, vs };
    proof {
        assert(r.vs.deep_view() =~= m.vs.deep_view());
        assert(r.deep_view() == m.deep_view());
    }
    r
}

pub fn clone_state(st: &LobbyState) -> (r: LobbyState)
    requires
        match st {
            LobbyState::ChampSelect(cs) => cs.selected_champs.wf(),
            _ => true,
        },
    ensures
        r.deep_view() == st.deep_view(),
        match r {
            LobbyState::ChampSelect(cs) => cs.selected_champs.wf(),
            _ => true,
        },
{
    match st {
        LobbyState::Normal => LobbyState::Normal,
        LobbyState::InGame => LobbyState::InGame,
        LobbyState::ChampSelect(cs) => LobbyState::ChampSelect(
            ChampSelectState {
                available_champs: clone_strings(&cs.available_champs),
                selected_champs: clone_selected(&cs.selected_champs),
            },
        ),
    }
}

/// A deep copy of a lobby, for the `LobbyInfo` reply.
pub fn snapshot_lobby(l: &Lobby) -> (r: Lobby)
    requires
        lobby_rep_wf(*l),
    ensures
        r.deep_view() == l.deep_view(),
        lobby_rep_wf(r),
{
    let r = Lobby {
        id: l.id,
        settings: clone_settings(&l.settings),
        leader: l.leader,
        players: clone_teams(&l.players),
        lobby_state: clone_state(&l.lobby_state),
    };
    proof {
        assert(r.deep_view() =~= l.deep_view());
    }
    r
}

} // verus!
