use bowling::controller::{
    ConnectedStep, ControllerApp, IdleStep, NetCommand, UiEvent, connected_step, idle_step, trim_text,
};
use bowling::protocol::{ClientMessage, PlayerInfo, ScoreboardState, ServerMessage};

fn member(id: &str, name: &str) -> PlayerInfo {
    PlayerInfo { player_id: id.to_string(), username: name.to_string(), connected: true }
}

#[test]
fn new_client_is_idle() {
    let app = ControllerApp::new();
    assert_eq!(app.server_url, "ws://127.0.0.1:3000/ws");
    assert_eq!(app.status, "idle");
    assert!(!app.connected);
    assert!(!app.joined);
    assert!(app.lobby_players.is_empty());
    assert!(app.scoreboard.is_none());
    assert!(app.log.is_empty());
}

#[test]
fn trim_removes_surrounding_white_space_only() {
    assert_eq!(trim_text("  ab c \t\n"), "ab c");
    assert_eq!(trim_text("\u{3000}x\u{a0}"), "x");
    assert_eq!(trim_text("   "), "");
    assert_eq!(trim_text(""), "");
    assert_eq!(trim_text("abc"), "abc");
}

#[test]
fn log_keeps_the_newest_sixty_four_lines() {
    let mut app = ControllerApp::new();
    for i in 0..70 {
        app.push_log(format!("line {i}"));
    }
    assert_eq!(app.log.len(), 64);
    assert_eq!(app.log[0], "line 6");
    assert_eq!(app.log[63], "line 69");
}

#[test]
fn connect_reports_and_asks_for_the_server() {
    let mut app = ControllerApp::new();
    let cmd = app.connect();
    assert_eq!(app.status, "connecting to ws://127.0.0.1:3000/ws");
    assert_eq!(app.log, vec!["connecting to ws://127.0.0.1:3000/ws".to_string()]);
    match cmd {
        NetCommand::Connect { url } => assert_eq!(url, "ws://127.0.0.1:3000/ws"),
        _ => panic!("expected a connect command"),
    }
    assert!(matches!(app.disconnect(), NetCommand::Disconnect));
}

#[test]
fn join_needs_code_and_name() {
    let mut app = ControllerApp::new();
    app.lobby_code = "  ".to_string();
    app.username = "ann".to_string();
    assert!(app.join_lobby().is_none());
    assert_eq!(app.status, "lobby code and username are required");
    assert!(app.log.is_empty());

    app.lobby_code = " 01234 ".to_string();
    app.username = "\tann ".to_string();
    match app.join_lobby() {
        Some(NetCommand::Send(ClientMessage::JoinLobby { code, username })) => {
            assert_eq!(code, "01234");
            assert_eq!(username, "ann");
        }
        _ => panic!("expected a join request"),
    }
}

#[test]
fn messages_update_the_client() {
    let mut app = ControllerApp::new();
    app.apply_server_message(
        ServerMessage::LobbyJoined {
            code: "00042".to_string(),
            player_id: "p1".to_string(),
            player_session: "s1".to_string(),
            players: vec![member("p1", "ann")],
        },
        "",
    );
    assert!(app.joined);
    assert_eq!(app.lobby_code, "00042");
    assert_eq!(app.status, "joined lobby 00042");
    assert_eq!(app.lobby_players.len(), 1);

    app.apply_server_message(
        ServerMessage::GameStarted { code: "00042".to_string(), current_player_id: "p1".to_string() },
        "",
    );
    assert_eq!(app.status, "game started in 00042, turn: p1");

    app.apply_server_message(ServerMessage::TurnChanged { current_player_id: "p2".to_string() }, "");
    assert_eq!(app.status, "turn changed: p2");

    app.apply_server_message(
        ServerMessage::ThrowEvent {
            player_id: "p1".to_string(),
            force_bits: 0.5f32.to_bits(),
            direction_x_bits: 0.0f32.to_bits(),
            direction_z_bits: 1.0f32.to_bits(),
        },
        "force=0.50, x=0.00, z=1.00",
    );
    assert_eq!(app.status, "turn changed: p2");
    assert_eq!(app.log.last().unwrap(), "throw relayed for p1: force=0.50, x=0.00, z=1.00");

    let board = ScoreboardState {
        current_player_id: "p1".to_string(),
        current_frame: 1,
        current_roll: 1,
        pins_remaining: 10,
        players: vec![],
        game_over: false,
    };
    let before = app.log.len();
    app.apply_server_message(ServerMessage::ScoreboardUpdated { scoreboard: board.clone() }, "");
    assert_eq!(app.scoreboard, Some(board));
    assert_eq!(app.log.len(), before);

    app.apply_server_message(ServerMessage::GameStopped { code: "00042".to_string() }, "");
    assert_eq!(app.status, "game stopped in 00042");

    app.apply_server_message(ServerMessage::Error { message: "not your turn".to_string() }, "");
    assert_eq!(app.status, "server error: not your turn");

    app.apply_server_message(ServerMessage::Info { message: "hello".to_string() }, "");
    assert_eq!(app.status, "hello");

    app.apply_server_message(
        ServerMessage::ReconnectOkHost { code: "00042".to_string(), players: vec![] },
        "",
    );
    assert_eq!(app.status, "host reconnect not used by controller client");

    app.apply_server_message(
        ServerMessage::LobbyCreated {
            code: "00007".to_string(),
            host_session: "h".to_string(),
            players: vec![],
        },
        "",
    );
    assert!(!app.joined);
    assert_eq!(app.lobby_code, "00007");
    assert_eq!(app.status, "host created lobby 00007");

    app.apply_server_message(
        ServerMessage::LobbyUpdated { code: "00007".to_string(), players: vec![member("p2", "bo")] },
        "",
    );
    assert_eq!(app.lobby_players[0].username, "bo");
}

#[test]
fn events_update_the_client() {
    let mut app = ControllerApp::new();
    app.handle_event(UiEvent::Connected("ws://h/ws".to_string()), "");
    assert!(app.connected);
    assert_eq!(app.status, "connected to ws://h/ws");

    app.handle_event(
        UiEvent::ServerMessage(ServerMessage::ReconnectOkPlayer {
            code: "00001".to_string(),
            player_id: "p1".to_string(),
            player_session: "s".to_string(),
            players: vec![member("p1", "ann")],
        }),
        "",
    );
    assert!(app.joined);
    assert_eq!(app.status, "reconnected as player");

    app.handle_event(UiEvent::Disconnected("socket error: boom".to_string()), "");
    assert!(!app.connected);
    assert!(!app.joined);
    assert!(app.lobby_players.is_empty());
    assert_eq!(app.status, "disconnected: socket error: boom");

    app.handle_event(UiEvent::Error("connect failed: refused".to_string()), "");
    assert_eq!(app.status, "error: connect failed: refused");

    app.handle_event(UiEvent::Status("not connected".to_string()), "");
    assert_eq!(app.status, "not connected");
    assert_eq!(app.log.len(), 5);
}

#[test]
fn leaving_forgets_the_lobby() {
    let mut app = ControllerApp::new();
    app.joined = true;
    app.lobby_players = vec![member("p1", "ann")];
    let cmd = app.leave_lobby();
    assert!(matches!(cmd, NetCommand::Send(ClientMessage::Leave)));
    assert!(!app.joined);
    assert!(app.lobby_players.is_empty());
    assert!(app.scoreboard.is_none());
}

#[test]
fn network_task_decisions() {
    match idle_step(NetCommand::Connect { url: "ws://x".to_string() }) {
        IdleStep::Connect(url) => assert_eq!(url, "ws://x"),
        _ => panic!("expected a connection attempt"),
    }
    match idle_step(NetCommand::Disconnect) {
        IdleStep::Report(UiEvent::Status(s)) => assert_eq!(s, "already disconnected"),
        _ => panic!("expected a status report"),
    }
    match idle_step(NetCommand::Send(ClientMessage::Leave)) {
        IdleStep::Report(UiEvent::Status(s)) => assert_eq!(s, "not connected"),
        _ => panic!("expected a status report"),
    }
    match connected_step(Some(NetCommand::Connect { url: "ws://y".to_string() })) {
        ConnectedStep::Leave { event: UiEvent::Status(s), reconnect: Some(url) } => {
            assert_eq!(s, "reconnecting to ws://y");
            assert_eq!(url, "ws://y");
        }
        _ => panic!("expected a reconnect"),
    }
    match connected_step(Some(NetCommand::Disconnect)) {
        ConnectedStep::Leave { event: UiEvent::Disconnected(s), reconnect: None } => {
            assert_eq!(s, "user disconnected")
        }
        _ => panic!("expected a disconnect"),
    }
    match connected_step(None) {
        ConnectedStep::Leave { event: UiEvent::Disconnected(s), reconnect: None } => {
            assert_eq!(s, "command channel closed")
        }
        _ => panic!("expected a disconnect"),
    }
    assert!(matches!(
        connected_step(Some(NetCommand::Send(ClientMessage::StartGame))),
        ConnectedStep::Send(ClientMessage::StartGame)
    ));
}

#[test]
fn a_throw_is_sent_and_logged() {
    let mut app = ControllerApp::new();
    let cmd = app.send_throw(
        0.5f32.to_bits(),
        0.0f32.to_bits(),
        1.0f32.to_bits(),
        "sent throw: force=0.50, x=0.00, z=1.00".to_string(),
    );
    match cmd {
        NetCommand::Send(ClientMessage::ThrowEvent { force_bits, direction_x_bits, direction_z_bits }) => {
            assert_eq!(force_bits, 0.5f32.to_bits());
            assert_eq!(direction_x_bits, 0.0f32.to_bits());
            assert_eq!(direction_z_bits, 1.0f32.to_bits());
        }
        _ => panic!("expected a throw"),
    }
    assert_eq!(app.log, vec!["sent throw: force=0.50, x=0.00, z=1.00".to_string()]);
    assert_eq!(app.status, "idle");
}
