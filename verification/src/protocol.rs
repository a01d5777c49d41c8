use vstd::prelude::*;

verus! {

/// One lobby member as shown to clients.
#[derive(Debug, Clone, PartialEq, Eq)]
pub struct PlayerInfo {
    pub player_id: String,
    pub username: String,
    pub connected: bool,
}

/// The marks and running score of one frame of a scorecard.
#[derive(Debug, Clone, PartialEq, Eq)]
pub struct FrameScoreView {
    pub rolls: Vec<String>,
    pub cumulative_score: Option<u16>,
}

/// One player's scorecard.
#[derive(Debug, Clone, PartialEq, Eq)]
pub struct PlayerScoreView {
    pub player_id: String,
    pub username: String,
    pub total_score: u16,
    pub frames: Vec<FrameScoreView>,
    pub status_label: String,
    pub finished: bool,
}

/// The whole scoreboard of a game in progress.
#[derive(Debug, Clone, PartialEq, Eq)]
pub struct ScoreboardState {
    pub current_player_id: String,
    pub current_frame: u8,
    pub current_roll: u8,
    pub pins_remaining: u8,
    pub players: Vec<PlayerScoreView>,
    pub game_over: bool,
}

/// What a client asks of the server.
///
/// The throw parameters are single-precision floats on the wire; here they are
/// carried as their IEEE-754 bit patterns.
#[derive(Debug, Clone, PartialEq, Eq)]
pub enum ClientMessage {
    CreateLobby,
    JoinLobby { code: String, username: String },
    ReconnectPlayer { code: String, player_session: String },
    ReconnectHost { code: String, host_session: String },
    Leave,
    StartGame,
    ThrowEvent { force_bits: u32, direction_x_bits: u32, direction_z_bits: u32 },
    ReportThrowResult { knocked_pins: u8, standing_pins: u8 },
}

/// What the server tells a client.
#[derive(Debug, Clone, PartialEq, Eq)]
pub enum ServerMessage {
    LobbyCreated { code: String, host_session: String, players: Vec<PlayerInfo> },
    LobbyJoined { code: String, player_id: String, player_session: String, players: Vec<PlayerInfo> },
    LobbyUpdated { code: String, players: Vec<PlayerInfo> },
    ReconnectOkHost { code: String, players: Vec<PlayerInfo> },
    ReconnectOkPlayer {
        code: String,
        player_id: String,
        player_session: String,
        players: Vec<PlayerInfo>,
    },
    GameStarted { code: String, current_player_id: String },
    TurnChanged { current_player_id: String },
    ScoreboardUpdated { scoreboard: ScoreboardState },
    GameStopped { code: String },
    ThrowEvent { player_id: String, force_bits: u32, direction_x_bits: u32, direction_z_bits: u32 },
    Info { message: String },
    Error { message: String },
}

/// A message and the connections it is sent to.
#[derive(Debug, Clone, PartialEq, Eq)]
pub struct Outgoing {
    pub recipients: Vec<u64>,
    pub message: ServerMessage,
}

// ---------------------------------------------------------------------------
// Mathematical models of the messages
// ---------------------------------------------------------------------------

pub struct PlayerInfoModel {
    pub player_id: Seq<char>,
    pub username: Seq<char>,
    pub connected: bool,
}

pub struct FrameScoreModel {
    pub rolls: Seq<Seq<char>>,
    pub cumulative_score: Option<u16>,
}

pub struct PlayerScoreModel {
    pub player_id: Seq<char>,
    pub username: Seq<char>,
    pub total_score: u16,
    pub frames: Seq<FrameScoreModel>,
    pub status_label: Seq<char>,
    pub finished: bool,
}

pub struct ScoreboardModel {
    pub current_player_id: Seq<char>,
    pub current_frame: u8,
    pub current_roll: u8,
    pub pins_remaining: u8,
    pub players: Seq<PlayerScoreModel>,
    pub game_over: bool,
}

pub enum ServerMessageModel {
    LobbyCreated { code: Seq<char>, host_session: Seq<char>, players: Seq<PlayerInfoModel> },
    LobbyJoined {
        code: Seq<char>,
        player_id: Seq<char>,
        player_session: Seq<char>,
        players: Seq<PlayerInfoModel>,
    },
    LobbyUpdated { code: Seq<char>, players: Seq<PlayerInfoModel> },
    ReconnectOkHost { code: Seq<char>, players: Seq<PlayerInfoModel> },
    ReconnectOkPlayer {
        code: Seq<char>,
        player_id: Seq<char>,
        player_session: Seq<char>,
        players: Seq<PlayerInfoModel>,
    },
    GameStarted { code: Seq<char>, current_player_id: Seq<char> },
    TurnChanged { current_player_id: Seq<char> },
    ScoreboardUpdated { scoreboard: ScoreboardModel },
    GameStopped { code: Seq<char> },
    ThrowEvent { player_id: Seq<char>, force_bits: u32, direction_x_bits: u32, direction_z_bits: u32 },
    Info { message: Seq<char> },
    Error { message: Seq<char> },
}

pub struct OutgoingModel {
    pub recipients: Seq<u64>,
    pub message: ServerMessageModel,
}

impl View for PlayerInfo {
    type V = PlayerInfoModel;

    open spec fn view(&self) -> PlayerInfoModel {
        PlayerInfoModel { player_id: self.player_id@, username: self.username@, connected: self.connected }
    }
}

/// The model of a list of lobby members.
pub open spec fn infos_model(v: Seq<PlayerInfo>) -> Seq<PlayerInfoModel> {
    v.map_values(|p: PlayerInfo| p@)
}

/// The model of a list of texts.
pub open spec fn texts_model(v: Seq<String>) -> Seq<Seq<char>> {
    v.map_values(|s: String| s@)
}

impl View for FrameScoreView {
    type V = FrameScoreModel;

    open spec fn view(&self) -> FrameScoreModel {
        FrameScoreModel { rolls: texts_model(self.rolls@), cumulative_score: self.cumulative_score }
    }
}

/// The model of a list of frame views.
pub open spec fn frames_model(v: Seq<FrameScoreView>) -> Seq<FrameScoreModel> {
    v.map_values(|f: FrameScoreView| f@)
}

impl View for PlayerScoreView {
    type V = PlayerScoreModel;

    open spec fn view(&self) -> PlayerScoreModel {
        PlayerScoreModel {
            player_id: self.player_id@,
            username: self.username@,
            total_score: self.total_score,
            frames: frames_model(self.frames@),
            status_label: self.status_label@,
            finished: self.finished,
        }
    }
}

/// The model of a list of scorecards.
pub open spec fn cards_model(v: Seq<PlayerScoreView>) -> Seq<PlayerScoreModel> {
    v.map_values(|p: PlayerScoreView| p@)
}

impl View for ScoreboardState {
    type V = ScoreboardModel;

    open spec fn view(&self) -> ScoreboardModel {
        ScoreboardModel {
            current_player_id: self.current_player_id@,
            current_frame: self.current_frame,
            current_roll: self.current_roll,
            pins_remaining: self.pins_remaining,
            players: cards_model(self.players@),
            game_over: self.game_over,
        }
    }
}

impl View for ServerMessage {
    type V = ServerMessageModel;

    open spec fn view(&self) -> ServerMessageModel {
        match self {
            ServerMessage::LobbyCreated { code, host_session, players } => ServerMessageModel::LobbyCreated {
                code: code@,
                host_session: host_session@,
                players: infos_model(players@),
            },
            ServerMessage::LobbyJoined { code, player_id, player_session, players } =>
                ServerMessageModel::LobbyJoined {
                code: code@,
                player_id: player_id@,
                player_session: player_session@,
                players: infos_model(players@),
            },
            ServerMessage::LobbyUpdated { code, players } => ServerMessageModel::LobbyUpdated {
                code: code@,
                players: infos_model(players@),
            },
            ServerMessage::ReconnectOkHost { code, players } => ServerMessageModel::ReconnectOkHost {
                code: code@,
                players: infos_model(players@),
            },
            ServerMessage::ReconnectOkPlayer { code, player_id, player_session, players } =>
                ServerMessageModel::ReconnectOkPlayer {
                code: code@,
                player_id: player_id@,
                player_session: player_session@,
                players: infos_model(players@),
            },
            ServerMessage::GameStarted { code, current_player_id } => ServerMessageModel::GameStarted {
                code: code@,
                current_player_id: current_player_id@,
            },
            ServerMessage::TurnChanged { current_player_id } => ServerMessageModel::TurnChanged {
                current_player_id: current_player_id@,
            },
            ServerMessage::ScoreboardUpdated { scoreboard } => ServerMessageModel::ScoreboardUpdated {
                scoreboard: scoreboard@,
            },
            ServerMessage::GameStopped { code } => ServerMessageModel::GameStopped { code: code@ },
            ServerMessage::ThrowEvent { player_id, force_bits, direction_x_bits, direction_z_bits } =>
                ServerMessageModel::ThrowEvent {
                player_id: player_id@,
                force_bits: *force_bits,
                direction_x_bits: *direction_x_bits,
                direction_z_bits: *direction_z_bits,
            },
            ServerMessage::Info { message } => ServerMessageModel::Info { message: message@ },
            ServerMessage::Error { message } => ServerMessageModel::Error { message: message@ },
        }
    }
}

impl View for Outgoing {
    type V = OutgoingModel;

    open spec fn view(&self) -> OutgoingModel {
        OutgoingModel { recipients: self.recipients@, message: self.message@ }
    }
}

/// The model of a list of outgoing messages.
pub open spec fn outgoing_model(v: Seq<Outgoing>) -> Seq<OutgoingModel> {
    v.map_values(|d: Outgoing| d@)
}

} // verus!
