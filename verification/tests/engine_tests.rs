use lobby_server::engine::ServerState;
use lobby_server::types::{
    Action, Event, LobbyId, LobbySettings, MessageFromPlayer, MessageFromServer, PlayerId, Team,
};

fn connect(s: &mut ServerState, raw: u128, name: &str) -> PlayerId {
    let pid = s.connection_made_with_id(raw).expect("fresh id");
    let acts = s.player_name_updated(pid, name.to_string());
    assert!(acts.is_empty());
    pid
}

fn settings(team_count: usize, limit: usize) -> LobbySettings {
    LobbySettings {
        name: "L".to_string(),
        map_name: "Default".to_string(),
        team_count,
        player_limit_per_team: limit,
        players_can_change_team: true,
        lobby_is_open: true,
    }
}

fn refused(acts: &[Action], reason: &str) -> bool {
    acts.iter().any(|a| match a {
        Action::Send(_, MessageFromServer::RequestRefused(r)) => r == reason,
        _ => false,
    })
}

fn team_ids(teams: &[Vec<PlayerId>]) -> Vec<Vec<u128>> {
    teams.iter().map(|t| t.iter().map(|p| p.0).collect()).collect()
}

#[test]
fn create_join_leave_messages() {
    let mut s = ServerState::new(40000, 40010);
    let p1 = connect(&mut s, 1, "A");
    let lid = LobbyId(100);
    let acts = s.create_lobby_with_id(p1, lid);
    assert!(matches!(acts[0], Action::Send(p, MessageFromServer::YouJoinedLobby(l)) if p == p1 && l == lid));
    match &acts[1] {
        Action::Broadcast(rec, MessageFromServer::PlayerJoinedYourLobby(p)) => {
            assert!(rec.is_empty());
            assert_eq!(*p, p1);
        },
        other => panic!("unexpected action {:?}", other),
    }

    let p2 = connect(&mut s, 2, "B");
    let acts = s.get_lobby_list(p2);
    match &acts[0] {
        Action::Send(p, MessageFromServer::LobbyList(list)) => {
            assert_eq!(*p, p2);
            assert_eq!(list.len(), 1);
            assert_eq!(list[0].id, lid);
            assert_eq!(list[0].name, "A's Lobby");
            assert_eq!(list[0].player_count, 1);
            assert_eq!(list[0].max_player_count, 10);
        },
        other => panic!("unexpected action {:?}", other),
    }

    let acts = s.join_lobby(p2, lid);
    assert!(matches!(acts[0], Action::Send(p, MessageFromServer::YouJoinedLobby(l)) if p == p2 && l == lid));
    match &acts[1] {
        Action::Broadcast(rec, MessageFromServer::PlayerJoinedYourLobby(p)) => {
            assert_eq!(rec.as_slice(), &[p1]);
            assert_eq!(*p, p2);
        },
        other => panic!("unexpected action {:?}", other),
    }

    let acts = s.leave_lobby(p2);
    assert!(matches!(acts[0], Action::Send(p, MessageFromServer::YouLeftLobby) if p == p2));
    match &acts[1] {
        Action::Broadcast(rec, MessageFromServer::PlayerLeftYourLobby(p)) => {
            assert_eq!(rec.as_slice(), &[p1]);
            assert_eq!(*p, p2);
        },
        other => panic!("unexpected action {:?}", other),
    }
    assert_eq!(s.lobby_of(p2), None);
    assert_eq!(s.lobby_count(), 1);
}

#[test]
fn sole_member_leave_deletes_lobby() {
    let mut s = ServerState::new(40000, 40010);
    let p1 = connect(&mut s, 1, "A");
    let lid = LobbyId(100);
    s.create_lobby_with_id(p1, lid);
    assert_eq!(s.lobby_count(), 1);
    let acts = s.leave_lobby(p1);
    assert!(matches!(acts[0], Action::Send(p, MessageFromServer::YouLeftLobby) if p == p1));
    assert_eq!(acts.len(), 1);
    assert_eq!(s.lobby_count(), 0);
    assert_eq!(s.lobby_of(p1), None);
}

#[test]
fn leader_departure_promotes_next_member() {
    let mut s = ServerState::new(40000, 40010);
    let p1 = connect(&mut s, 1, "A");
    let p2 = connect(&mut s, 2, "B");
    let lid = LobbyId(100);
    s.create_lobby_with_id(p1, lid);
    s.join_lobby(p2, lid);

    let acts = s.connection_lost(p1);
    match &acts[0] {
        Action::Broadcast(rec, MessageFromServer::LobbyLeaderChanged(p)) => {
            assert_eq!(rec.as_slice(), &[p2]);
            assert_eq!(*p, p2);
        },
        other => panic!("unexpected action {:?}", other),
    }
    match &acts[1] {
        Action::Broadcast(rec, MessageFromServer::PlayerLeftYourLobby(p)) => {
            assert_eq!(rec.as_slice(), &[p2]);
            assert_eq!(*p, p1);
        },
        other => panic!("unexpected action {:?}", other),
    }
    assert_eq!(s.leader_of(lid), Some(p2));
    assert_eq!(s.player_count(), 1);
}

#[test]
fn kick_authority() {
    let mut s = ServerState::new(40000, 40010);
    let p1 = connect(&mut s, 1, "A");
    let p2 = connect(&mut s, 2, "B");
    let p3 = connect(&mut s, 3, "C");
    let lid = LobbyId(100);
    s.create_lobby_with_id(p1, lid);
    s.join_lobby(p2, lid);
    s.join_lobby(p3, lid);

    let acts = s.kick_player(p2, p3);
    assert!(refused(&acts, "You are not the lobby leader."));
    assert_eq!(s.lobby_of(p3), Some(lid));

    let acts = s.kick_player(p1, p3);
    assert!(matches!(acts[0], Action::Send(p, MessageFromServer::YouLeftLobby) if p == p3));
    match &acts[1] {
        Action::Broadcast(rec, MessageFromServer::PlayerLeftYourLobby(p)) => {
            assert_eq!(rec.as_slice(), &[p1, p2]);
            assert_eq!(*p, p3);
        },
        other => panic!("unexpected action {:?}", other),
    }
    assert_eq!(s.lobby_of(p3), None);
}

#[test]
fn join_guards() {
    let mut s = ServerState::new(40000, 40010);
    let p1 = connect(&mut s, 1, "A");
    let p2 = connect(&mut s, 2, "B");
    let lid = LobbyId(100);
    s.create_lobby_with_id(p1, lid);

    let acts = s.join_lobby(p2, LobbyId(999));
    assert!(refused(&acts, "That lobby does not exist."));

    let acts = s.join_lobby(p1, lid);
    assert!(refused(&acts, "You are already in a lobby."));

    let mut closed = settings(2, 5);
    closed.lobby_is_open = false;
    s.update_settings(p1, closed);
    let acts = s.join_lobby(p2, lid);
    assert!(refused(&acts, "The lobby is closed."));

    let mut tiny = settings(1, 1);
    tiny.lobby_is_open = true;
    s.update_settings(p1, tiny);
    let acts = s.join_lobby(p2, lid);
    assert!(refused(&acts, "The lobby is full"));
}

#[test]
fn switch_team_moves_and_refuses() {
    let mut s = ServerState::new(40000, 40010);
    let p1 = connect(&mut s, 1, "A");
    let p2 = connect(&mut s, 2, "B");
    let lid = LobbyId(100);
    s.create_lobby_with_id(p1, lid);
    s.join_lobby(p2, lid);
    assert_eq!(team_ids(&s.teams_of(lid).unwrap()), vec![vec![1], vec![2]]);

    // a member moves itself
    let acts = s.switch_team(p2, p2, Team(0));
    match &acts[0] {
        Action::Broadcast(rec, MessageFromServer::PlayerSwitchedTeam(p, t)) => {
            assert_eq!(rec.as_slice(), &[p1, p2]);
            assert_eq!(*p, p2);
            assert_eq!(*t, Team(0));
        },
        other => panic!("unexpected action {:?}", other),
    }
    assert_eq!(team_ids(&s.teams_of(lid).unwrap()), vec![vec![1, 2], vec![]]);

    // a missing team is named in the refusal
    let acts = s.switch_team(p1, p1, Team(7));
    assert!(refused(&acts, "Team 7 does not exist."));

    // a full team is named in the refusal
    let mut small = settings(2, 1);
    small.player_limit_per_team = 1;
    s.update_settings(p1, small);
    let teams = team_ids(&s.teams_of(lid).unwrap());
    assert_eq!(teams, vec![vec![1], vec![2]]);
    let acts = s.switch_team(p2, p2, Team(0));
    assert!(refused(&acts, "Team 0 is full."));

    // only the leader moves other players
    let acts = s.switch_team(p2, p1, Team(1));
    assert!(refused(&acts, "Cannot switch team of other player."));
}

#[test]
fn switch_team_disabled_refusal() {
    let mut s = ServerState::new(40000, 40010);
    let p1 = connect(&mut s, 1, "A");
    let p2 = connect(&mut s, 2, "B");
    let lid = LobbyId(100);
    s.create_lobby_with_id(p1, lid);
    s.join_lobby(p2, lid);
    let mut locked = settings(2, 5);
    locked.players_can_change_team = false;
    s.update_settings(p1, locked);
    let acts = s.switch_team(p2, p2, Team(0));
    assert!(refused(&acts, "Team switching is disabled in this lobby."));
    // the leader may still move players
    let acts = s.switch_team(p1, p2, Team(0));
    assert!(matches!(acts[0], Action::Broadcast(_, MessageFromServer::PlayerSwitchedTeam(_, _))));
}

#[test]
fn switch_places_swaps_and_is_involutive() {
    let mut s = ServerState::new(40000, 40010);
    let p1 = connect(&mut s, 1, "A");
    let p2 = connect(&mut s, 2, "B");
    let p3 = connect(&mut s, 3, "C");
    let lid = LobbyId(100);
    s.create_lobby_with_id(p1, lid);
    s.join_lobby(p2, lid);
    s.join_lobby(p3, lid);
    let before = team_ids(&s.teams_of(lid).unwrap());
    assert_eq!(before, vec![vec![1, 3], vec![2]]);

    let acts = s.switch_places(p1, p3, p2);
    assert!(matches!(acts[0], Action::Broadcast(_, MessageFromServer::PlayersSwitched(a, b)) if a == p3 && b == p2));
    assert_eq!(team_ids(&s.teams_of(lid).unwrap()), vec![vec![1, 2], vec![3]]);

    s.switch_places(p1, p3, p2);
    assert_eq!(team_ids(&s.teams_of(lid).unwrap()), before);

    let acts = s.switch_places(p2, p1, p3);
    assert!(refused(&acts, "You are not the lobby leader."));
    let acts = s.switch_places(p1, p1, PlayerId(777));
    assert!(refused(&acts, "Player does not exist"));
}

#[test]
fn update_settings_validation() {
    let mut s = ServerState::new(40000, 40010);
    let p1 = connect(&mut s, 1, "A");
    let lid = LobbyId(100);
    s.create_lobby_with_id(p1, lid);

    let mut bad = settings(2, 5);
    bad.name = "".to_string();
    assert!(refused(&s.update_settings(p1, bad), "Lobby name cannot be empty."));

    let mut bad = settings(2, 5);
    bad.name = "  \t ".to_string();
    assert!(refused(&s.update_settings(p1, bad), "Lobby name cannot be only whitespace."));

    let mut bad = settings(2, 5);
    bad.map_name = "Moon".to_string();
    assert!(refused(&s.update_settings(p1, bad), "No map Moon exists."));

    let bad = settings(0, 5);
    assert!(refused(&s.update_settings(p1, bad), "There must be at least 1 team."));

    // capacity below the member count is refused
    let p2 = connect(&mut s, 2, "B");
    s.join_lobby(p2, lid);
    let bad = settings(1, 1);
    assert!(refused(&s.update_settings(p1, bad), "Not enough room for all players."));
}

#[test]
fn update_settings_noop_sends_nothing() {
    let mut s = ServerState::new(40000, 40010);
    let p1 = connect(&mut s, 1, "A");
    let lid = LobbyId(100);
    s.create_lobby_with_id(p1, lid);
    let same = LobbySettings {
        name: "A's Lobby".to_string(),
        map_name: "Default".to_string(),
        team_count: 2,
        player_limit_per_team: 5,
        players_can_change_team: true,
        lobby_is_open: true,
    };
    let before = team_ids(&s.teams_of(lid).unwrap());
    let acts = s.update_settings(p1, same);
    assert!(acts.is_empty());
    assert_eq!(team_ids(&s.teams_of(lid).unwrap()), before);
}

#[test]
fn reshuffle_on_team_count_decrease() {
    let mut s = ServerState::new(40000, 40010);
    let a = connect(&mut s, 1, "A");
    let b = connect(&mut s, 2, "B");
    let c = connect(&mut s, 3, "C");
    let d = connect(&mut s, 4, "D");
    let e = connect(&mut s, 5, "E");
    let f = connect(&mut s, 6, "F");
    let lid = LobbyId(100);
    s.create_lobby_with_id(a, lid);
    s.update_settings(a, settings(3, 5));
    s.join_lobby(b, lid);
    s.join_lobby(c, lid);
    s.switch_team(a, c, Team(1));
    s.join_lobby(d, lid);
    s.join_lobby(e, lid);
    s.switch_team(a, e, Team(2));
    s.join_lobby(f, lid);
    s.switch_team(a, f, Team(2));
    assert_eq!(team_ids(&s.teams_of(lid).unwrap()), vec![vec![1], vec![2, 3], vec![4, 5, 6]]);

    let acts = s.update_settings(a, settings(2, 5));
    match &acts[0] {
        Action::Broadcast(rec, MessageFromServer::SettingsUpdated(ns)) => {
            assert_eq!(rec.len(), 6);
            assert_eq!(ns.team_count, 2);
        },
        other => panic!("unexpected action {:?}", other),
    }
    // the dropped team's players go greedily to the smallest team, in order
    assert_eq!(team_ids(&s.teams_of(lid).unwrap()), vec![vec![1, 4, 5], vec![2, 3, 6]]);
}

#[test]
fn reshuffle_on_limit_decrease() {
    let mut s = ServerState::new(40000, 40010);
    let a = connect(&mut s, 1, "A");
    let b = connect(&mut s, 2, "B");
    let c = connect(&mut s, 3, "C");
    let d = connect(&mut s, 4, "D");
    let lid = LobbyId(100);
    s.create_lobby_with_id(a, lid);
    s.join_lobby(b, lid);
    s.join_lobby(c, lid);
    s.join_lobby(d, lid);
    // arrange [[A,B,C],[D]]
    s.switch_places(a, c, b);
    s.switch_team(a, c, Team(0));
    assert_eq!(team_ids(&s.teams_of(lid).unwrap()), vec![vec![1, 2, 3], vec![4]]);

    s.update_settings(a, settings(2, 2));
    // the clipped tail of team 0 greedy-places into team 1
    assert_eq!(team_ids(&s.teams_of(lid).unwrap()), vec![vec![1, 2], vec![4, 3]]);
}

#[test]
fn join_then_leave_restores_lobby() {
    let mut s = ServerState::new(40000, 40010);
    let p1 = connect(&mut s, 1, "A");
    let p2 = connect(&mut s, 2, "B");
    let p3 = connect(&mut s, 3, "C");
    let lid = LobbyId(100);
    s.create_lobby_with_id(p1, lid);
    s.join_lobby(p2, lid);
    let before = team_ids(&s.teams_of(lid).unwrap());
    let leader = s.leader_of(lid);

    s.join_lobby(p3, lid);
    s.leave_lobby(p3);
    assert_eq!(team_ids(&s.teams_of(lid).unwrap()), before);
    assert_eq!(s.leader_of(lid), leader);
    assert_eq!(s.lobby_of(p3), None);
}

#[test]
fn champ_select_happy_path() {
    let mut s = ServerState::new(40000, 40010);
    let p1 = connect(&mut s, 1, "A");
    let p2 = connect(&mut s, 2, "B");
    let lid = LobbyId(100);
    s.create_lobby_with_id(p1, lid);
    s.join_lobby(p2, lid);

    let acts = s.enter_champ_select(p1);
    match &acts[0] {
        Action::Broadcast(rec, MessageFromServer::ChampSelectEntered) => {
            assert_eq!(rec.as_slice(), &[p1, p2]);
        },
        other => panic!("unexpected action {:?}", other),
    }

    let acts = s.select_champion(p1, "Champ 5".to_string());
    assert!(matches!(&acts[0], Action::Broadcast(_, MessageFromServer::PlayerSelectedChampion(p, c)) if *p == p1 && c == "Champ 5"));
    s.select_champion(p2, "Champ 7".to_string());

    let acts = s.lock_champ_selection_with_token(p1, 42);
    assert_eq!(acts.len(), 1);
    assert!(matches!(&acts[0], Action::Broadcast(_, MessageFromServer::ChampSelectionLocked(p)) if *p == p1));

    let acts = s.lock_champ_selection_with_token(p2, 77);
    // the lobby hears of the lock first, then the launch is owed
    assert!(matches!(&acts[0], Action::Broadcast(_, MessageFromServer::ChampSelectionLocked(p)) if *p == p2));
    match &acts[1] {
        Action::LaunchGameServer { lobby, port, token, roster } => {
            assert_eq!(*lobby, lid);
            assert_eq!(*port, 40000);
            assert_eq!(*token, 77);
            assert_eq!(roster.len(), 2);
            assert_eq!(roster[0][0].player.name, "A");
            assert_eq!(roster[0][0].champion, "Champ 5");
            assert_eq!(roster[1][0].player.name, "B");
            assert_eq!(roster[1][0].champion, "Champ 7");
        },
        other => panic!("unexpected action {:?}", other),
    }
    assert_eq!(s.game_server_port(lid), Some(40000));

    // the tokens come back and are forwarded verbatim
    let pairs = vec![(p1, "tok-a".to_string()), (p2, "tok-b".to_string())];
    let acts = s.game_tokens_generated(&pairs);
    assert!(matches!(&acts[0], Action::Send(p, MessageFromServer::GameStarted(t)) if *p == p1 && t == "tok-a"));
    assert!(matches!(&acts[1], Action::Send(p, MessageFromServer::GameStarted(t)) if *p == p2 && t == "tok-b"));
}

#[test]
fn champ_select_refusals() {
    let mut s = ServerState::new(40000, 40010);
    let p1 = connect(&mut s, 1, "A");
    let p2 = connect(&mut s, 2, "B");
    let lid = LobbyId(100);
    s.create_lobby_with_id(p1, lid);
    s.join_lobby(p2, lid);

    let acts = s.enter_champ_select(p2);
    assert!(refused(&acts, "You are not the lobby leader."));
    s.enter_champ_select(p1);

    let acts = s.select_champion(p2, "NoSuchChamp".to_string());
    assert!(refused(&acts, "That champion does not exist."));

    let acts = s.lock_champ_selection_with_token(p2, 1);
    assert!(refused(&acts, "Cannot lock empty selection."));

    s.select_champion(p2, "Champ 1".to_string());
    s.lock_champ_selection_with_token(p2, 1);
    let acts = s.select_champion(p2, "Champ 2".to_string());
    assert!(refused(&acts, "You cannot change locked selection."));

    // joining is refused while the lobby is out of the normal phase
    let p3 = connect(&mut s, 3, "C");
    let acts = s.join_lobby(p3, lid);
    assert!(refused(&acts, "Lobby is in invalid state."));
}

#[test]
fn game_server_death_empties_lobby_and_frees_port() {
    let mut s = ServerState::new(40000, 40000);
    let p1 = connect(&mut s, 1, "A");
    let p2 = connect(&mut s, 2, "B");
    let lid = LobbyId(100);
    s.create_lobby_with_id(p1, lid);
    s.join_lobby(p2, lid);
    s.enter_champ_select(p1);
    s.select_champion(p1, "Champ 5".to_string());
    s.select_champion(p2, "Champ 5".to_string());
    s.lock_champ_selection_with_token(p1, 1);
    s.lock_champ_selection_with_token(p2, 2);
    assert_eq!(s.game_server_port(lid), Some(40000));

    let acts = s.game_server_exited(lid, false);
    match &acts[0] {
        Action::Broadcast(rec, MessageFromServer::RequestRefused(r)) => {
            assert_eq!(rec.as_slice(), &[p1, p2]);
            assert_eq!(r, "Failed to start game server");
        },
        other => panic!("unexpected action {:?}", other),
    }
    assert!(acts.iter().any(|a| matches!(a, Action::Send(p, MessageFromServer::YouLeftLobby) if *p == p1)));
    assert!(acts.iter().any(|a| matches!(a, Action::Send(p, MessageFromServer::YouLeftLobby) if *p == p2)));
    assert_eq!(s.lobby_count(), 0);
    assert_eq!(s.game_server_port(lid), None);

    // the port is free again for the next match
    let lid2 = LobbyId(200);
    s.create_lobby_with_id(p1, lid2);
    s.join_lobby(p2, lid2);
    s.enter_champ_select(p1);
    s.select_champion(p1, "Champ 5".to_string());
    s.select_champion(p2, "Champ 5".to_string());
    s.lock_champ_selection_with_token(p1, 1);
    let acts = s.lock_champ_selection_with_token(p2, 2);
    assert!(matches!(&acts[1], Action::LaunchGameServer { port: 40000, .. }));
}

#[test]
fn lock_without_free_port_fails_the_lobby() {
    // an inverted range offers no ports at all
    let mut s = ServerState::new(2, 1);
    let p1 = connect(&mut s, 1, "A");
    let lid = LobbyId(100);
    s.create_lobby_with_id(p1, lid);
    s.enter_champ_select(p1);
    s.select_champion(p1, "Champ 9".to_string());
    let acts = s.lock_champ_selection_with_token(p1, 5);
    assert!(acts.iter().any(|a| matches!(a,
        Action::Broadcast(_, MessageFromServer::RequestRefused(r)) if r == "Failed to start game server")));
    assert!(acts.iter().any(|a| matches!(a, Action::Send(p, MessageFromServer::YouLeftLobby) if *p == p1)));
    assert_eq!(s.lobby_count(), 0);
}

#[test]
fn clean_game_server_exit_disbands_quietly() {
    let mut s = ServerState::new(40000, 40010);
    let p1 = connect(&mut s, 1, "A");
    let lid = LobbyId(100);
    s.create_lobby_with_id(p1, lid);
    s.enter_champ_select(p1);
    s.select_champion(p1, "Champ 1".to_string());
    s.lock_champ_selection_with_token(p1, 3);
    let acts = s.game_server_exited(lid, true);
    assert!(!refused(&acts, "Failed to start game server"));
    assert!(acts.iter().any(|a| matches!(a, Action::Send(p, MessageFromServer::YouLeftLobby) if *p == p1)));
    assert_eq!(s.lobby_count(), 0);
}

#[test]
fn get_player_info_and_silent_drop() {
    let mut s = ServerState::new(40000, 40010);
    let p1 = connect(&mut s, 1, "Anna");
    let p2 = connect(&mut s, 2, "B");
    let acts = s.get_player_info(p2, p1);
    match &acts[0] {
        Action::Send(p, MessageFromServer::PlayerInfo(info)) => {
            assert_eq!(*p, p2);
            assert_eq!(info.id, p1);
            assert_eq!(info.name, "Anna");
        },
        other => panic!("unexpected action {:?}", other),
    }
    let acts = s.get_player_info(p2, PlayerId(999));
    assert!(acts.is_empty());
}

#[test]
fn get_lobby_info_snapshot() {
    let mut s = ServerState::new(40000, 40010);
    let p1 = connect(&mut s, 1, "A");
    let lid = LobbyId(100);
    s.create_lobby_with_id(p1, lid);
    let acts = s.get_lobby_info(p1, lid);
    match &acts[0] {
        Action::Send(_, MessageFromServer::LobbyInfo(l)) => {
            assert_eq!(l.id, lid);
            assert_eq!(l.leader, p1);
            assert_eq!(l.settings.name, "A's Lobby");
            assert_eq!(l.players, vec![vec![p1], vec![]]);
        },
        other => panic!("unexpected action {:?}", other),
    }
    let acts = s.get_lobby_info(p1, LobbyId(999));
    assert!(refused(&acts, "That lobby does not exist."));
}

#[test]
fn dispatch_and_shutdown() {
    let mut s = ServerState::new(40000, 40010);
    let p1 = connect(&mut s, 1, "A");
    let p2 = connect(&mut s, 2, "B");

    let acts = s.handle_message(p1, MessageFromPlayer::Disconnecting);
    assert!(matches!(acts[0], Action::DropConnection(p) if p == p1));

    let acts = s.handle_message(p1, MessageFromPlayer::StartGame);
    assert!(refused(&acts, "Invalid request."));

    let acts = s.handle_event(Event::PlayerNameUpdated(p2, "Bea".to_string()));
    assert!(acts.is_empty());
    let acts = s.get_player_info(p1, p2);
    assert!(matches!(&acts[0], Action::Send(_, MessageFromServer::PlayerInfo(i)) if i.name == "Bea"));

    let acts = s.handle_event(Event::Shutdown);
    match &acts[0] {
        Action::Broadcast(rec, MessageFromServer::ServerShutdown) => {
            assert_eq!(rec.as_slice(), &[p1, p2]);
        },
        other => panic!("unexpected action {:?}", other),
    }
    assert!(matches!(acts[1], Action::Exit));
    assert!(s.should_exit());
}

#[test]
fn refusals_outside_a_lobby() {
    let mut s = ServerState::new(40000, 40010);
    let p1 = connect(&mut s, 1, "A");
    assert!(refused(&s.switch_team(p1, p1, Team(0)), "You are not in a lobby."));
    assert!(refused(&s.kick_player(p1, p1), "You are not in a lobby."));
    assert!(refused(&s.update_settings(p1, settings(2, 5)), "You are not in a lobby."));
    assert!(refused(&s.enter_champ_select(p1), "You are not in a lobby."));
    // leaving while in no lobby still gets the bare acknowledgment
    let acts = s.leave_lobby(p1);
    assert_eq!(acts.len(), 1);
    assert!(matches!(acts[0], Action::Send(_, MessageFromServer::YouLeftLobby)));
}

#[test]
fn absurd_capacity_is_refused() {
    let mut s = ServerState::new(40000, 40010);
    let p1 = connect(&mut s, 1, "A");
    let lid = LobbyId(100);
    s.create_lobby_with_id(p1, lid);
    let huge = settings(usize::MAX, 2);
    assert!(refused(&s.update_settings(p1, huge), "Lobby capacity is too large."));
}

#[test]
fn switch_team_of_stranger_is_refused() {
    let mut s = ServerState::new(40000, 40010);
    let p1 = connect(&mut s, 1, "A");
    let lid = LobbyId(100);
    s.create_lobby_with_id(p1, lid);
    let acts = s.switch_team(p1, PlayerId(777), Team(1));
    assert!(refused(&acts, "Player does not exist"));
}

#[test]
fn minted_ids_are_usable() {
    let mut s = ServerState::new(40000, 40010);
    // the random path: the engine guarantees the recorded ids are fresh,
    // so connecting and creating always succeed
    let pid = s.connection_made().expect("a fresh id is always found");
    assert_eq!(s.player_count(), 1);
    let acts = s.create_lobby(pid);
    assert!(acts.iter().any(|a| matches!(a, Action::Send(_, MessageFromServer::YouJoinedLobby(_)))));
    assert_eq!(s.lobby_count(), 1);
    assert_eq!(s.lobby_of(pid), Some(s.lobby_id_at(0)));
}
