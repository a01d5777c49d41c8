use vstd::prelude::*;
use vstd::string::*;

use crate::protocol::{
    ClientMessage, PlayerInfo, PlayerInfoModel, ScoreboardModel, ScoreboardState, ServerMessage,
    ServerMessageModel, infos_model, texts_model,
};
use crate::text::owned;

verus! {

// ---------------------------------------------------------------------------
// Trimming white space
// ---------------------------------------------------------------------------

/// Whether `c` has the Unicode `White_Space` property.
pub open spec fn is_white_space(c: char) -> bool {
    let n = c as u32;
    ||| 0x09 <= n <= 0x0d
    ||| n == 0x20
    ||| n == 0x85
    ||| n == 0xa0
    ||| n == 0x1680
    ||| 0x2000 <= n <= 0x200a
    ||| n == 0x2028
    ||| n == 0x2029
    ||| n == 0x202f
    ||| n == 0x205f
    ||| n == 0x3000
}

/// `s` without its leading white space.
pub open spec fn trim_start(s: Seq<char>) -> Seq<char>
    decreases s.len(),
{
    if s.len() > 0 && is_white_space(s[0]) {
        trim_start(s.drop_first())
    } else {
        s
    }
}

/// `s` without its trailing white space.
pub open spec fn trim_end(s: Seq<char>) -> Seq<char>
    decreases s.len(),
{
    if s.len() > 0 && is_white_space(s.last()) {
        trim_end(s.drop_last())
    } else {
        s
    }
}

/// `s` without its leading and trailing white space.
pub open spec fn trimmed(s: Seq<char>) -> Seq<char> {
    trim_end(trim_start(s))
}

/// Whether `c` is white space.
pub fn white_space(c: char) -> (b: bool)
    ensures
        b == is_white_space(c),
{
    let n = c as u32;
    (0x09 <= n && n <= 0x0d) || n == 0x20 || n == 0x85 || n == 0xa0 || n == 0x1680 || (0x2000 <= n
        && n <= 0x200a) || n == 0x2028 || n == 0x2029 || n == 0x202f || n == 0x205f || n == 0x3000
}

/// `s` without its leading and trailing white space.
pub fn trim_text(s: &str) -> (r: String)
    ensures
        r@ == trimmed(s@),
{
    let n = s.unicode_len();
    let mut start: usize = 0;
    assert(s@.subrange(0, n as int) =~= s@);
    while start < n && white_space(s.get_char(start))
        invariant
            n == s@.len(),
            start <= n,
            trim_start(s@) == trim_start(s@.subrange(start as int, n as int)),
        decreases n - start,
    {
        assert(s@.subrange(start as int, n as int).drop_first() =~= s@.subrange(
            start + 1,
            n as int,
        ));
        start = start + 1;
    }
    let ghost rest = s@.subrange(start as int, n as int);
    assert(trim_start(s@) == rest);
    let mut end: usize = n;
    while end > start && white_space(s.get_char(end - 1))
        invariant
            n == s@.len(),
            start <= end <= n,
            rest == s@.subrange(start as int, n as int),
            trim_end(rest) == trim_end(s@.subrange(start as int, end as int)),
        decreases end - start,
    {
        assert(s@.subrange(start as int, end as int).drop_last() =~= s@.subrange(
            start as int,
            end - 1,
        ));
        end = end - 1;
    }
    owned(s.substring_char(start, end))
}

// ---------------------------------------------------------------------------
// The controller client's state
// ---------------------------------------------------------------------------

/// How many lines the client's log keeps.
pub const LOG_CAPACITY: usize = 64;

/// What the client asks of its network task.
pub enum NetCommand {
    Connect { url: String },
    Disconnect,
    Send(ClientMessage),
}

/// What the network task reports to the client.
pub enum UiEvent {
    Connected(String),
    Disconnected(String),
    Status(String),
    ServerMessage(ServerMessage),
    Error(String),
}

/// The state of the controller client: where it connects, the lobby it is in, what it
/// last heard, and a bounded log of what happened (oldest first).
pub struct ControllerApp {
    pub server_url: String,
    pub lobby_code: String,
    pub username: String,
    pub connected: bool,
    pub joined: bool,
    pub status: String,
    pub lobby_players: Vec<PlayerInfo>,
    pub scoreboard: Option<ScoreboardState>,
    pub log: Vec<String>,
}

pub enum NetCommandModel {
    Connect { url: Seq<char> },
    Disconnect,
    Send(ClientMessage),
}

pub enum UiEventModel {
    Connected(Seq<char>),
    Disconnected(Seq<char>),
    Status(Seq<char>),
    ServerMessage(ServerMessageModel),
    Error(Seq<char>),
}

pub struct ControllerModel {
    pub server_url: Seq<char>,
    pub lobby_code: Seq<char>,
    pub username: Seq<char>,
    pub connected: bool,
    pub joined: bool,
    pub status: Seq<char>,
    pub lobby_players: Seq<PlayerInfoModel>,
    pub scoreboard: Option<ScoreboardModel>,
    pub log: Seq<Seq<char>>,
}

impl View for NetCommand {
    type V = NetCommandModel;

    open spec fn view(&self) -> NetCommandModel {
        match self {
            NetCommand::Connect { url } => NetCommandModel::Connect { url: url@ },
            NetCommand::Disconnect => NetCommandModel::Disconnect,
            NetCommand::Send(m) => NetCommandModel::Send(*m),
        }
    }
}

impl View for UiEvent {
    type V = UiEventModel;

    open spec fn view(&self) -> UiEventModel {
        match self {
            UiEvent::Connected(url) => UiEventModel::Connected(url@),
            UiEvent::Disconnected(reason) => UiEventModel::Disconnected(reason@),
            UiEvent::Status(text) => UiEventModel::Status(text@),
            UiEvent::ServerMessage(m) => UiEventModel::ServerMessage(m@),
            UiEvent::Error(message) => UiEventModel::Error(message@),
        }
    }
}

/// The model of an optional scoreboard.
pub open spec fn scoreboard_option_model(s: Option<ScoreboardState>) -> Option<ScoreboardModel> {
    match s {
        Some(b) => Some(b@),
        None => None,
    }
}

impl View for ControllerApp {
    type V = ControllerModel;

    open spec fn view(&self) -> ControllerModel {
        ControllerModel {
            server_url: self.server_url@,
            lobby_code: self.lobby_code@,
            username: self.username@,
            connected: self.connected,
            joined: self.joined,
            status: self.status@,
            lobby_players: infos_model(self.lobby_players@),
            scoreboard: scoreboard_option_model(self.scoreboard),
            log: texts_model(self.log@),
        }
    }
}

/// `log` with `line` appended, the oldest line dropped when the log is full.
pub open spec fn log_with(log: Seq<Seq<char>>, line: Seq<char>) -> Seq<Seq<char>> {
    if log.len() >= LOG_CAPACITY {
        log.drop_first().push(line)
    } else {
        log.push(line)
    }
}

/// `m` with `line` appended to its log.
pub open spec fn logged(m: ControllerModel, line: Seq<char>) -> ControllerModel {
    ControllerModel { log: log_with(m.log, line), ..m }
}

/// `m` showing `status`, which is also appended to its log.
pub open spec fn with_status(m: ControllerModel, status: Seq<char>) -> ControllerModel {
    logged(ControllerModel { status, ..m }, status)
}

/// `m` with no lobby: not joined, no members, no scoreboard.
pub open spec fn without_lobby(m: ControllerModel) -> ControllerModel {
    ControllerModel { joined: false, lobby_players: seq![], scoreboard: None, ..m }
}

/// The client after it heard `msg`. A relayed throw is logged with `throw_text`, the
/// throw's parameters as the log shows them.
pub open spec fn after_message(m: ControllerModel, msg: ServerMessageModel, throw_text: Seq<char>) -> ControllerModel {
    match msg {
        ServerMessageModel::LobbyCreated { code, .. } => with_status(
            ControllerModel { lobby_code: code, joined: false, ..m },
            "host created lobby "@ + code,
        ),
        ServerMessageModel::LobbyJoined { code, players, .. } => with_status(
            ControllerModel { lobby_code: code, joined: true, lobby_players: players, ..m },
            "joined lobby "@ + code,
        ),
        ServerMessageModel::LobbyUpdated { code, players } => ControllerModel {
            lobby_code: code,
            lobby_players: players,
            ..m
        },
        ServerMessageModel::ReconnectOkPlayer { code, players, .. } => with_status(
            ControllerModel { lobby_code: code, joined: true, lobby_players: players, ..m },
            "reconnected as player"@,
        ),
        ServerMessageModel::ReconnectOkHost { .. } => with_status(
            m,
            "host reconnect not used by controller client"@,
        ),
        ServerMessageModel::GameStarted { code, current_player_id } => with_status(
            m,
            "game started in "@ + code + ", turn: "@ + current_player_id,
        ),
        ServerMessageModel::TurnChanged { current_player_id } => with_status(
            m,
            "turn changed: "@ + current_player_id,
        ),
        ServerMessageModel::ScoreboardUpdated { scoreboard } => ControllerModel {
            scoreboard: Some(scoreboard),
            ..m
        },
        ServerMessageModel::GameStopped { code } => with_status(m, "game stopped in "@ + code),
        ServerMessageModel::ThrowEvent { player_id, .. } => logged(
            m,
            "throw relayed for "@ + player_id + ": "@ + throw_text,
        ),
        ServerMessageModel::Info { message } => with_status(m, message),
        ServerMessageModel::Error { message } => with_status(m, "server error: "@ + message),
    }
}

/// The client after its network task reported `event` (see `after_message` for
/// `throw_text`).
pub open spec fn after_event(m: ControllerModel, event: UiEventModel, throw_text: Seq<char>) -> ControllerModel {
    match event {
        UiEventModel::Status(text) => with_status(m, text),
        UiEventModel::Connected(url) => with_status(
            ControllerModel { connected: true, ..m },
            "connected to "@ + url,
        ),
        UiEventModel::Disconnected(reason) => with_status(
            ControllerModel { connected: false, ..without_lobby(m) },
            "disconnected: "@ + reason,
        ),
        UiEventModel::ServerMessage(msg) => after_message(m, msg, throw_text),
        UiEventModel::Error(message) => with_status(m, "error: "@ + message),
    }
}

/// `prefix` followed by `rest`.
fn joined_text(prefix: &str, rest: &str) -> (r: String)
    ensures
        r@ == prefix@ + rest@,
{
    let mut s = owned(prefix);
    s.append(rest);
    s
}

impl ControllerApp {
    /// A client that is not connected, aimed at the local server.
    pub fn new() -> (app: Self)
        ensures
            app@.server_url == "ws://127.0.0.1:3000/ws"@,
            app@.lobby_code == Seq::<char>::empty(),
            app@.username == Seq::<char>::empty(),
            !app.connected,
            !app.joined,
            app@.status == "idle"@,
            app@.lobby_players == Seq::<PlayerInfoModel>::empty(),
            app.scoreboard is None,
            app@.log == Seq::<Seq<char>>::empty(),
    {
        let app = ControllerApp {
            server_url: owned("ws://127.0.0.1:3000/ws"),
            lobby_code: String::new(),
            username: String::new(),
            connected: false,
            joined: false,
            status: owned("idle"),
            lobby_players: Vec::new(),
            scoreboard: None,
            log: Vec::new(),
        };
        assert(app@.lobby_players =~= Seq::<PlayerInfoModel>::empty());
        assert(app@.log =~= Seq::<Seq<char>>::empty());
        app
    }

    /// Appends `line` to the log, dropping the oldest line when the log is full.
    pub fn push_log(&mut self, line: String)
        ensures
            final(self)@ == logged(old(self)@, line@),
    {
        let ghost pre = self.log@;
        if self.log.len() >= LOG_CAPACITY {
            self.log.remove(0);
            assert(texts_model(self.log@) =~= texts_model(pre).drop_first());
        }
        let ghost mid = self.log@;
        self.log.push(line);
        assert(texts_model(self.log@) =~= texts_model(mid).push(self.log@.last()@));
    }

    /// Shows `status` and logs it.
    fn set_status(&mut self, status: String)
        ensures
            final(self)@ == with_status(old(self)@, status@),
    {
        self.status = status.clone();
        self.push_log(status);
    }

    /// Asks the network task to connect to the server address, and says so.
    pub fn connect(&mut self) -> (command: NetCommand)
        ensures
            final(self)@ == with_status(old(self)@, "connecting to "@ + old(self)@.server_url),
            command@ == (NetCommandModel::Connect { url: old(self)@.server_url }),
    {
        let status = joined_text("connecting to ", self.server_url.as_str());
        self.set_status(status);
        NetCommand::Connect { url: self.server_url.clone() }
    }

    /// Asks the network task to drop the connection.
    pub fn disconnect(&self) -> (command: NetCommand)
        ensures
            command@ == NetCommandModel::Disconnect,
    {
        NetCommand::Disconnect
    }

    /// Asks to join the lobby typed in, under the name typed in, both without surrounding
    /// white space; with either of them blank, says so and asks nothing.
    pub fn join_lobby(&mut self) -> (command: Option<NetCommand>)
        ensures
            trimmed(old(self)@.lobby_code).len() == 0 || trimmed(old(self)@.username).len() == 0 ==> {
                &&& command is None
                &&& final(self)@ == (ControllerModel {
                    status: "lobby code and username are required"@,
                    ..old(self)@
                })
            },
            trimmed(old(self)@.lobby_code).len() > 0 && trimmed(old(self)@.username).len() > 0 ==> {
                &&& final(self)@ == old(self)@
                &&& command matches Some(NetCommand::Send(ClientMessage::JoinLobby { code, username }))
                    && code@ == trimmed(old(self)@.lobby_code) && username@ == trimmed(old(self)@.username)
            },
    {
        let code = trim_text(self.lobby_code.as_str());
        let username = trim_text(self.username.as_str());
        if code.unicode_len() == 0 || username.unicode_len() == 0 {
            self.status = owned("lobby code and username are required");
            return None;
        }
        Some(NetCommand::Send(ClientMessage::JoinLobby { code, username }))
    }

    /// Asks to throw with the given force and direction (their IEEE-754 bit patterns) and
    /// logs `log_line`, the throw as the log shows it.
    pub fn send_throw(
        &mut self,
        force_bits: u32,
        direction_x_bits: u32,
        direction_z_bits: u32,
        log_line: String,
    ) -> (command: NetCommand)
        ensures
            command@ == NetCommandModel::Send(
                ClientMessage::ThrowEvent { force_bits, direction_x_bits, direction_z_bits },
            ),
            final(self)@ == logged(old(self)@, log_line@),
    {
        self.push_log(log_line);
        NetCommand::Send(ClientMessage::ThrowEvent { force_bits, direction_x_bits, direction_z_bits })
    }

    /// Asks to leave the lobby and forgets it.
    pub fn leave_lobby(&mut self) -> (command: NetCommand)
        ensures
            final(self)@ == without_lobby(old(self)@),
            command@ == NetCommandModel::Send(ClientMessage::Leave),
    {
        self.joined = false;
        self.lobby_players = Vec::new();
        self.scoreboard = None;
        assert(self@.lobby_players =~= Seq::<PlayerInfoModel>::empty());
        NetCommand::Send(ClientMessage::Leave)
    }

    /// Takes in what the server said. `throw_text` is how a relayed throw's parameters
    /// are logged (it is used for nothing else).
    pub fn apply_server_message(&mut self, message: ServerMessage, throw_text: &str)
        ensures
            final(self)@ == after_message(old(self)@, message@, throw_text@),
    {
        match message {
            ServerMessage::LobbyCreated { code, .. } => {
                let status = joined_text("host created lobby ", code.as_str());
                self.lobby_code = code;
                self.joined = false;
                self.set_status(status);
            },
            ServerMessage::LobbyJoined { code, players, .. } => {
                let status = joined_text("joined lobby ", code.as_str());
                self.lobby_code = code;
                self.joined = true;
                self.lobby_players = players;
                self.set_status(status);
            },
            ServerMessage::LobbyUpdated { code, players } => {
                self.lobby_code = code;
                self.lobby_players = players;
            },
            ServerMessage::ReconnectOkPlayer { code, players, .. } => {
                self.lobby_code = code;
                self.joined = true;
                self.lobby_players = players;
                self.set_status(owned("reconnected as player"));
            },
            ServerMessage::ReconnectOkHost { .. } => {
                self.set_status(owned("host reconnect not used by controller client"));
            },
            ServerMessage::GameStarted { code, current_player_id } => {
                let mut status = joined_text("game started in ", code.as_str());
                status.append(", turn: ");
                status.append(current_player_id.as_str());
                self.set_status(status);
            },
            ServerMessage::TurnChanged { current_player_id } => {
                self.set_status(joined_text("turn changed: ", current_player_id.as_str()));
            },
            ServerMessage::ScoreboardUpdated { scoreboard } => {
                self.scoreboard = Some(scoreboard);
            },
            ServerMessage::GameStopped { code } => {
                self.set_status(joined_text("game stopped in ", code.as_str()));
            },
            ServerMessage::ThrowEvent { player_id, .. } => {
                let mut line = joined_text("throw relayed for ", player_id.as_str());
                line.append(": ");
                line.append(throw_text);
                self.push_log(line);
            },
            ServerMessage::Info { message } => {
                self.set_status(message);
            },
            ServerMessage::Error { message } => {
                self.set_status(joined_text("server error: ", message.as_str()));
            },
        }
    }

    /// Takes in what the network task reported (see `apply_server_message` for
    /// `throw_text`).
    pub fn handle_event(&mut self, event: UiEvent, throw_text: &str)
        ensures
            final(self)@ == after_event(old(self)@, event@, throw_text@),
    {
        match event {
            UiEvent::Status(text) => {
                self.set_status(text);
            },
            UiEvent::Connected(url) => {
                self.connected = true;
                self.set_status(joined_text("connected to ", url.as_str()));
            },
            UiEvent::Disconnected(reason) => {
                self.connected = false;
                self.joined = false;
                self.lobby_players = Vec::new();
                self.scoreboard = None;
                assert(self@.lobby_players =~= Seq::<PlayerInfoModel>::empty());
                self.set_status(joined_text("disconnected: ", reason.as_str()));
            },
            UiEvent::ServerMessage(message) => {
                self.apply_server_message(message, throw_text);
            },
            UiEvent::Error(message) => {
                self.set_status(joined_text("error: ", message.as_str()));
            },
        }
    }
}

// ---------------------------------------------------------------------------
// The controller client's network task
// ---------------------------------------------------------------------------

/// What the network task does with a command while it holds no connection.
pub enum IdleStep {
    /// Connect to this address; report `Connected` with it on success, and
    /// `Error("connect failed: ...")` otherwise.
    Connect(String),
    /// Report this and wait for the next command.
    Report(UiEvent),
}

/// What the network task does with the next command while it is connected, or with the
/// end of the commands (`None`).
pub enum ConnectedStep {
    /// Send this message; if sending fails, report `Disconnected("send failed: ...")` and
    /// leave the connection.
    Send(ClientMessage),
    /// Close the connection and report `event`; then connect to `reconnect` if it is
    /// there, or else wait for commands without a connection.
    Leave { event: UiEvent, reconnect: Option<String> },
}

/// What the network task does with `command` while it holds no connection.
pub fn idle_step(command: NetCommand) -> (step: IdleStep)
    ensures
        match command@ {
            NetCommandModel::Connect { url } => step matches IdleStep::Connect(u) && u@ == url,
            NetCommandModel::Disconnect => step matches IdleStep::Report(e) && e@ == UiEventModel::Status(
                "already disconnected"@,
            ),
            NetCommandModel::Send(_) => step matches IdleStep::Report(e) && e@ == UiEventModel::Status(
                "not connected"@,
            ),
        },
{
    match command {
        NetCommand::Connect { url } => IdleStep::Connect(url),
        NetCommand::Disconnect => IdleStep::Report(UiEvent::Status(owned("already disconnected"))),
        NetCommand::Send(_) => IdleStep::Report(UiEvent::Status(owned("not connected"))),
    }
}

/// What the network task does with `command` while it is connected (`None`: the
/// client is gone).
pub fn connected_step(command: Option<NetCommand>) -> (step: ConnectedStep)
    ensures
        match command {
            None => step matches ConnectedStep::Leave { event, reconnect } && event@
                == UiEventModel::Disconnected("command channel closed"@) && reconnect is None,
            Some(c) => match c@ {
                NetCommandModel::Connect { url } => step matches ConnectedStep::Leave { event, reconnect }
                    && event@ == UiEventModel::Status("reconnecting to "@ + url) && (reconnect matches Some(
                    u,
                ) && u@ == url),
                NetCommandModel::Disconnect => step matches ConnectedStep::Leave { event, reconnect }
                    && event@ == UiEventModel::Disconnected("user disconnected"@) && reconnect is None,
                NetCommandModel::Send(m) => step matches ConnectedStep::Send(s) && s == m,
            },
        },
{
    match command {
        None => ConnectedStep::Leave {
            event: UiEvent::Disconnected(owned("command channel closed")),
            reconnect: None,
        },
        Some(NetCommand::Connect { url }) => ConnectedStep::Leave {
            event: UiEvent::Status(joined_text("reconnecting to ", url.as_str())),
            reconnect: Some(url),
        },
        Some(NetCommand::Disconnect) => ConnectedStep::Leave {
            event: UiEvent::Disconnected(owned("user disconnected")),
            reconnect: None,
        },
        Some(NetCommand::Send(m)) => ConnectedStep::Send(m),
    }
}

} // verus!
