//! The data model of the lobby service: identifiers, lobby records,
//! and the two wire-message catalogs.
//!
//! Each executable type has a ghost counterpart (suffix `V`) reached through
//! `DeepView`; every contract of the engine is stated over those views.

use vstd::prelude::*;

use crate::idmap::IdMap;

verus! {

/// Opaque 128-bit player identifier, minted when a connection is made.
#[derive(Clone, Copy, PartialEq, Eq, Structural, Debug)]
pub struct PlayerId(pub u128);

/// Opaque 128-bit lobby identifier, minted when a lobby is created.
#[derive(Clone, Copy, PartialEq, Eq, Structural, Debug)]
pub struct LobbyId(pub u128);

/// Index of a team inside a lobby. Teams are numbered contiguously from 0.
#[derive(Clone, Copy, PartialEq, Eq, Structural, Debug)]
pub struct Team(pub usize);

impl LobbyId {
    /// A lobby id freshly minted at random.
    pub fn new() -> Self {
        LobbyId(crate::mint::mint_id())
    }
}

impl PlayerId {
    /// A player id freshly minted at random.
    pub fn new() -> Self {
        PlayerId(crate::mint::mint_id())
    }
}

impl DeepView for PlayerId {
    type V = PlayerId;

    open spec fn deep_view(&self) -> PlayerId {
        *self
    }
}

impl DeepView for LobbyId {
    type V = LobbyId;

    open spec fn deep_view(&self) -> LobbyId {
        *self
    }
}

impl DeepView for Team {
    type V = Team;

    open spec fn deep_view(&self) -> Team {
        *self
    }
}

/// Settings of a lobby, chosen by its leader.
#[derive(Debug, PartialEq)]
pub struct LobbySettings {
    pub name: String,
    pub map_name: String,
    pub team_count: usize,
    pub player_limit_per_team: usize,
    pub players_can_change_team: bool,
    pub lobby_is_open: bool,
}

#[verifier::ext_equal]
pub ghost struct LobbySettingsV {
    pub name: Seq<char>,
    pub map_name: Seq<char>,
    pub team_count: usize,
    pub player_limit_per_team: usize,
    pub players_can_change_team: bool,
    pub lobby_is_open: bool,
}

impl DeepView for LobbySettings {
    type V = LobbySettingsV;

    open spec fn deep_view(&self) -> LobbySettingsV {
        LobbySettingsV {
            name: self.name@,
            map_name: self.map_name@,
            team_count: self.team_count,
            player_limit_per_team: self.player_limit_per_team,
            players_can_change_team: self.players_can_change_team,
            lobby_is_open: self.lobby_is_open,
        }
    }
}

/// A player's champion choice during champion selection.
#[derive(Debug, PartialEq)]
pub struct ChampionSelection {
    pub champion: String,
    pub locked: bool,
}

#[verifier::ext_equal]
pub ghost struct ChampionSelectionV {
    pub champion: Seq<char>,
    pub locked: bool,
}

impl DeepView for ChampionSelection {
    type V = ChampionSelectionV;

    open spec fn deep_view(&self) -> ChampionSelectionV {
        ChampionSelectionV { champion: self.champion@, locked: self.locked }
    }
}

/// The champion-selection phase of a lobby: the catalog shown to the
/// players, and one entry per lobby member.
#[derive(Debug, PartialEq)]
pub struct ChampSelectState {
    pub available_champs: Vec<String>,
    pub selected_champs: IdMap<Option<ChampionSelection>>,
}

#[verifier::ext_equal]
pub ghost struct ChampSelectStateV {
    pub available_champs: Seq<Seq<char>>,
    pub selected_champs: Map<u128, Option<ChampionSelectionV>>,
}

impl DeepView for ChampSelectState {
    type V = ChampSelectStateV;

    open spec fn deep_view(&self) -> ChampSelectStateV {
        ChampSelectStateV {
            available_champs: self.available_champs.deep_view(),
            selected_champs: self.selected_champs.deep_view(),
        }
    }
}

/// Lifecycle phase of a lobby.
#[derive(Debug, PartialEq)]
pub enum LobbyState {
    Normal,
    ChampSelect(ChampSelectState),
    InGame,
}

#[verifier::ext_equal]
pub ghost enum LobbyStateV {
    Normal,
    ChampSelect(ChampSelectStateV),
    InGame,
}

impl DeepView for LobbyState {
    type V = LobbyStateV;

    open spec fn deep_view(&self) -> LobbyStateV {
        match self {
            LobbyState::Normal => LobbyStateV::Normal,
            LobbyState::ChampSelect(s) => LobbyStateV::ChampSelect(s.deep_view()),
            LobbyState::InGame => LobbyStateV::InGame,
        }
    }
}

/// A lobby: settings, a leader, and the players arranged into teams.
/// `players[t]` is the ordered roster of team `t`; the team indices are
/// exactly `0 .. settings.team_count`.
#[derive(Debug, PartialEq)]
pub struct Lobby {
    pub id: LobbyId,
    pub settings: LobbySettings,
    pub leader: PlayerId,
    pub players: Vec<Vec<PlayerId>>,
    pub lobby_state: LobbyState,
}

#[verifier::ext_equal]
pub ghost struct LobbyV {
    pub id: LobbyId,
    pub settings: LobbySettingsV,
    pub leader: PlayerId,
    pub players: Seq<Seq<PlayerId>>,
    pub lobby_state: LobbyStateV,
}

impl DeepView for Lobby {
    type V = LobbyV;

    open spec fn deep_view(&self) -> LobbyV {
        LobbyV {
            id: self.id,
            settings: self.settings.deep_view(),
            leader: self.leader,
            players: self.players.deep_view(),
            lobby_state: self.lobby_state.deep_view(),
        }
    }
}

/// One line of the lobby browser.
#[derive(Debug, PartialEq)]
pub struct LobbyShortInfo {
    pub id: LobbyId,
    pub name: String,
    pub player_count: usize,
    pub max_player_count: usize,
}

#[verifier::ext_equal]
pub ghost struct LobbyShortInfoV {
    pub id: LobbyId,
    pub name: Seq<char>,
    pub player_count: usize,
    pub max_player_count: usize,
}

impl DeepView for LobbyShortInfo {
    type V = LobbyShortInfoV;

    open spec fn deep_view(&self) -> LobbyShortInfoV {
        LobbyShortInfoV {
            id: self.id,
            name: self.name@,
            player_count: self.player_count,
            max_player_count: self.max_player_count,
        }
    }
}

/// Public identity of a player.
#[derive(Debug, PartialEq)]
pub struct PlayerInfo {
    pub id: PlayerId,
    pub name: String,
}

#[verifier::ext_equal]
pub ghost struct PlayerInfoV {
    pub id: PlayerId,
    pub name: Seq<char>,
}

impl DeepView for PlayerInfo {
    type V = PlayerInfoV;

    open spec fn deep_view(&self) -> PlayerInfoV {
        PlayerInfoV { id: self.id, name: self.name@ }
    }
}

/// A player together with the champion chosen for the match; the roster
/// entries handed to a freshly launched game server.
#[derive(Debug, PartialEq)]
pub struct PlayerSelection {
    pub player: PlayerInfo,
    pub champion: String,
}

#[verifier::ext_equal]
pub ghost struct PlayerSelectionV {
    pub player: PlayerInfoV,
    pub champion: Seq<char>,
}

impl DeepView for PlayerSelection {
    type V = PlayerSelectionV;

    open spec fn deep_view(&self) -> PlayerSelectionV {
        PlayerSelectionV { player: self.player.deep_view(), champion: self.champion@ }
    }
}

/// Everything a client may ask of the server.
#[derive(Debug, PartialEq)]
pub enum MessageFromPlayer {
    InitialHandshake { name: String },
    CreateLobby,
    JoinLobby(LobbyId),
    LeaveLobby,
    SwitchTeam(PlayerId, Team),
    SwitchPlaces(PlayerId, PlayerId),
    GetLobbyInfo(LobbyId),
    GetLobbyList,
    GetPlayerInfo(PlayerId),
    KickPlayer(PlayerId),
    UpdateSettings(LobbySettings),
    EnterChampSelect,
    SelectChampion(String),
    LockChampSelection,
    StartGame,
    Disconnecting,
}

/// Everything the server may tell a client.
#[derive(Debug, PartialEq)]
pub enum MessageFromServer {
    InitialHandshakeResponse { id: PlayerId },
    YouJoinedLobby(LobbyId),
    YouLeftLobby,
    PlayerJoinedYourLobby(PlayerId),
    PlayerLeftYourLobby(PlayerId),
    PlayerSwitchedTeam(PlayerId, Team),
    PlayersSwitched(PlayerId, PlayerId),
    LobbyInfo(Lobby),
    LobbyList(Vec<LobbyShortInfo>),
    PlayerInfo(PlayerInfo),
    LobbyLeaderChanged(PlayerId),
    RequestRefused(String),
    SettingsUpdated(LobbySettings),
    ChampSelectEntered,
    PlayerSelectedChampion(PlayerId, String),
    ChampSelectionLocked(PlayerId),
    GameStarted(String),
    ServerShutdown,
}

#[verifier::ext_equal]
pub ghost enum MessageFromServerV {
    InitialHandshakeResponse { id: PlayerId },
    YouJoinedLobby(LobbyId),
    YouLeftLobby,
    PlayerJoinedYourLobby(PlayerId),
    PlayerLeftYourLobby(PlayerId),
    PlayerSwitchedTeam(PlayerId, Team),
    PlayersSwitched(PlayerId, PlayerId),
    LobbyInfo(LobbyV),
    LobbyList(Seq<LobbyShortInfoV>),
    PlayerInfo(PlayerInfoV),
    LobbyLeaderChanged(PlayerId),
    RequestRefused(Seq<char>),
    SettingsUpdated(LobbySettingsV),
    ChampSelectEntered,
    PlayerSelectedChampion(PlayerId, Seq<char>),
    ChampSelectionLocked(PlayerId),
    GameStarted(Seq<char>),
    ServerShutdown,
}

impl DeepView for MessageFromServer {
    type V = MessageFromServerV;

    open spec fn deep_view(&self) -> MessageFromServerV {
        match self {
            MessageFromServer::InitialHandshakeResponse { id } =>
                MessageFromServerV::InitialHandshakeResponse { id: *id },
            MessageFromServer::YouJoinedLobby(l) => MessageFromServerV::YouJoinedLobby(*l),
            MessageFromServer::YouLeftLobby => MessageFromServerV::YouLeftLobby,
            MessageFromServer::PlayerJoinedYourLobby(p) =>
                MessageFromServerV::PlayerJoinedYourLobby(*p),
            MessageFromServer::PlayerLeftYourLobby(p) =>
                MessageFromServerV::PlayerLeftYourLobby(*p),
            MessageFromServer::PlayerSwitchedTeam(p, t) =>
                MessageFromServerV::PlayerSwitchedTeam(*p, *t),
            MessageFromServer::PlayersSwitched(a, b) => MessageFromServerV::PlayersSwitched(
                *a,
                *b,
            ),
            MessageFromServer::LobbyInfo(l) => MessageFromServerV::LobbyInfo(l.deep_view()),
            MessageFromServer::LobbyList(l) => MessageFromServerV::LobbyList(l.deep_view()),
            MessageFromServer::PlayerInfo(p) => MessageFromServerV::PlayerInfo(p.deep_view()),
            MessageFromServer::LobbyLeaderChanged(p) => MessageFromServerV::LobbyLeaderChanged(
                *p,
            ),
            MessageFromServer::RequestRefused(s) => MessageFromServerV::RequestRefused(s@),
            MessageFromServer::SettingsUpdated(s) => MessageFromServerV::SettingsUpdated(
                s.deep_view(),
            ),
            MessageFromServer::ChampSelectEntered => MessageFromServerV::ChampSelectEntered,
            MessageFromServer::PlayerSelectedChampion(p, c) =>
                MessageFromServerV::PlayerSelectedChampion(*p, c@),
            MessageFromServer::ChampSelectionLocked(p) =>
                MessageFromServerV::ChampSelectionLocked(*p),
            MessageFromServer::GameStarted(t) => MessageFromServerV::GameStarted(t@),
            MessageFromServer::ServerShutdown => MessageFromServerV::ServerShutdown,
        }
    }
}

/// Ghost image of one connected player: identity plus the lobby
/// back-reference.
#[verifier::ext_equal]
pub ghost struct PlayerEntryV {
    pub info: PlayerInfoV,
    pub in_lobby: Option<LobbyId>,
}

/// One obligation of the engine towards the outside world.
#[verifier::ext_equal]
pub ghost enum ActionV {
    /// Send the message to this player.
    Send(PlayerId, MessageFromServerV),
    /// Send the message to each listed player, in order; the payload is
    /// serialized once and shared.
    Broadcast(Seq<PlayerId>, MessageFromServerV),
    /// Spawn a game-server child for this lobby on this port and hand it
    /// the roster over the bootstrap connection.
    LaunchGameServer {
        lobby: LobbyId,
        port: u16,
        token: u128,
        roster: Seq<Seq<PlayerSelectionV>>,
    },
    /// Fire the cancel signal of this lobby's game server.
    StopGameServer(LobbyId),
    /// Treat this player's connection as lost (post `ConnectionLost`).
    DropConnection(PlayerId),
    /// Drain outstanding sends and stop the event loop.
    Exit,
}

/// One unit of outside work the engine asks for. The event loop performs
/// them in order.
#[derive(Debug, PartialEq)]
pub enum Action {
    /// Send the message to this player.
    Send(PlayerId, MessageFromServer),
    /// Send the message to each listed player, in order, serializing the
    /// payload once.
    Broadcast(Vec<PlayerId>, MessageFromServer),
    /// Spawn a game-server child for this lobby on this port and hand it
    /// the roster over the bootstrap connection.
    LaunchGameServer {
        lobby: LobbyId,
        port: u16,
        token: u128,
        roster: Vec<Vec<PlayerSelection>>,
    },
    /// Fire the cancel signal of this lobby's game server.
    StopGameServer(LobbyId),
    /// Treat this player's connection as lost.
    DropConnection(PlayerId),
    /// Drain outstanding sends and stop the event loop.
    Exit,
}

impl DeepView for Action {
    type V = ActionV;

    open spec fn deep_view(&self) -> ActionV {
        match self {
            Action::Send(p, m) => ActionV::Send(*p, m.deep_view()),
            Action::Broadcast(ps, m) => ActionV::Broadcast(ps.deep_view(), m.deep_view()),
            Action::LaunchGameServer { lobby, port, token, roster } =>
                ActionV::LaunchGameServer {
                lobby: *lobby,
                port: *port,
                token: *token,
                roster: roster.deep_view(),
            },
            Action::StopGameServer(l) => ActionV::StopGameServer(*l),
            Action::DropConnection(p) => ActionV::DropConnection(*p),
            Action::Exit => ActionV::Exit,
        }
    }
}

/// Everything the event loop can feed the engine. A new connection is
/// handled by [`ServerState::connection_made`] instead, which mints the id.
#[derive(Debug)]
pub enum Event {
    PlayerNameUpdated(PlayerId, String),
    MessageReceived(PlayerId, MessageFromPlayer),
    ConnectionLost(PlayerId),
    /// The game server of a lobby answered the bootstrap with per-player
    /// connect tokens.
    GameTokensGenerated(Vec<(PlayerId, String)>),
    /// The game-server child of this lobby terminated; `true` means it
    /// exited cleanly after a match.
    GameServerExited(LobbyId, bool),
    Shutdown,
}

/// One connected player: identity plus the lobby back-reference.
#[derive(Debug, PartialEq)]
pub struct PlayerEntry {
    pub info: PlayerInfo,
    pub in_lobby: Option<LobbyId>,
}

impl DeepView for PlayerEntry {
    type V = PlayerEntryV;

    open spec fn deep_view(&self) -> PlayerEntryV {
        PlayerEntryV { info: self.info.deep_view(), in_lobby: self.in_lobby }
    }
}

} // verus!
