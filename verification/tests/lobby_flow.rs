use bowling::protocol::{ClientMessage, Outgoing, ServerMessage};
use bowling::state::{AppState, ConnectionRole, ThrowCheck};

const HOST: u64 = 1;
const ALICE: u64 = 2;
const BOB: u64 = 3;

fn send(st: &mut AppState, conn: u64, role: &mut Option<ConnectionRole>, msg: ClientMessage) -> Vec<Outgoing> {
    st.handle_client_message(conn, role, msg, ThrowCheck::Valid)
}

fn error_text(out: &[Outgoing]) -> Option<String> {
    match out {
        [Outgoing { message: ServerMessage::Error { message }, .. }] => Some(message.clone()),
        _ => None,
    }
}

fn throw() -> ClientMessage {
    ClientMessage::ThrowEvent {
        force_bits: 0.5f32.to_bits(),
        direction_x_bits: 0.0f32.to_bits(),
        direction_z_bits: 1.0f32.to_bits(),
    }
}

fn report(knocked: u8, standing: u8) -> ClientMessage {
    ClientMessage::ReportThrowResult { knocked_pins: knocked, standing_pins: standing }
}

struct Table {
    st: AppState,
    host: Option<ConnectionRole>,
    alice: Option<ConnectionRole>,
    bob: Option<ConnectionRole>,
    code: String,
    host_session: String,
    alice_id: String,
    alice_session: String,
    bob_id: String,
}

fn assert_uuid_v4(s: &str) {
    let chars: Vec<char> = s.chars().collect();
    assert_eq!(chars.len(), 36);
    for (i, c) in chars.iter().enumerate() {
        if i == 8 || i == 13 || i == 18 || i == 23 {
            assert_eq!(*c, '-');
        } else {
            assert!(c.is_ascii_digit() || ('a'..='f').contains(c));
        }
    }
    assert_eq!(chars[14], '4');
    assert!(matches!(chars[19], '8' | '9' | 'a' | 'b'));
}

fn create() -> (AppState, Option<ConnectionRole>, String, String) {
    let mut st = AppState::new();
    let mut host = None;
    let out = send(&mut st, HOST, &mut host, ClientMessage::CreateLobby);
    assert_eq!(out.len(), 1);
    assert_eq!(out[0].recipients, vec![HOST]);
    match &out[0].message {
        ServerMessage::LobbyCreated { code, host_session, players } => {
            assert_eq!(code.len(), 5);
            assert!(code.chars().all(|c| c.is_ascii_digit()));
            assert_uuid_v4(host_session);
            assert!(players.is_empty());
            assert_eq!(host, Some(ConnectionRole::Host { code: code.clone(), session: host_session.clone() }));
            let (code, session) = (code.clone(), host_session.clone());
            (st, host, code, session)
        },
        other => panic!("unexpected {:?}", other),
    }
}

fn join(st: &mut AppState, conn: u64, code: &str, name: &str) -> (Option<ConnectionRole>, String, String, Vec<Outgoing>) {
    let mut role = None;
    let out = send(st, conn, &mut role, ClientMessage::JoinLobby { code: code.to_string(), username: name.to_string() });
    match &out[0].message {
        ServerMessage::LobbyJoined { code: c, player_id, player_session, .. } => {
            assert_eq!(c, code);
            assert_uuid_v4(player_id);
            assert_uuid_v4(player_session);
            assert_ne!(player_id, player_session);
            let (id, session) = (player_id.clone(), player_session.clone());
            (role, id, session, out)
        },
        other => panic!("unexpected {:?}", other),
    }
}

fn table() -> Table {
    let (mut st, host, code, host_session) = create();
    let (alice, alice_id, alice_session, _) = join(&mut st, ALICE, &code, "alice");
    let (bob, bob_id, _, _) = join(&mut st, BOB, &code, "bob");
    Table { st, host, alice, bob, code, host_session, alice_id, alice_session, bob_id }
}

fn scoreboard_of(out: &[Outgoing]) -> bowling::protocol::ScoreboardState {
    for o in out {
        if let ServerMessage::ScoreboardUpdated { scoreboard } = &o.message {
            return scoreboard.clone();
        }
    }
    panic!("no scoreboard in {:?}", out);
}

#[test]
fn join_tells_the_player_and_the_lobby() {
    let (mut st, _host, code, _) = create();
    let (role, id, session, out) = join(&mut st, ALICE, &code, "alice");
    assert_eq!(role, Some(ConnectionRole::Player { code: code.clone(), session: session.clone() }));
    assert_eq!(out.len(), 2);
    assert_eq!(out[0].recipients, vec![ALICE]);
    match &out[0].message {
        ServerMessage::LobbyJoined { players, .. } => {
            assert_eq!(players.len(), 1);
            assert_eq!(players[0].player_id, id);
            assert_eq!(players[0].username, "alice");
            assert!(players[0].connected);
        },
        other => panic!("unexpected {:?}", other),
    }
    assert_eq!(out[1].recipients, vec![ALICE, HOST]);
    assert!(matches!(&out[1].message, ServerMessage::LobbyUpdated { code: c, players } if *c == code && players.len() == 1));
}

#[test]
fn join_unknown_lobby_is_refused() {
    let mut st = AppState::new();
    let mut role = None;
    let out = send(&mut st, ALICE, &mut role, ClientMessage::JoinLobby { code: "00000".into(), username: "x".into() });
    assert_eq!(error_text(&out).as_deref(), Some("lobby not found"));
    assert_eq!(out[0].recipients, vec![ALICE]);
    assert_eq!(role, None);
}

#[test]
fn only_the_host_starts_and_reports() {
    let mut t = table();
    let out = send(&mut t.st, ALICE, &mut t.alice, ClientMessage::StartGame);
    assert_eq!(error_text(&out).as_deref(), Some("only host can start game"));
    let out = send(&mut t.st, ALICE, &mut t.alice, report(1, 9));
    assert_eq!(error_text(&out).as_deref(), Some("only host can report throw results"));
    let out = send(&mut t.st, HOST, &mut t.host, throw());
    assert_eq!(error_text(&out).as_deref(), Some("only players can throw"));
}

#[test]
fn start_needs_a_connected_player() {
    let (mut st, mut host, _code, _) = create();
    let out = send(&mut st, HOST, &mut host, ClientMessage::StartGame);
    assert_eq!(error_text(&out).as_deref(), Some("need at least one connected player to start"));
}

#[test]
fn a_frame_is_bowled_and_the_turn_passes() {
    let mut t = table();
    let out = send(&mut t.st, HOST, &mut t.host, ClientMessage::StartGame);
    assert_eq!(out.len(), 2);
    assert!(matches!(&out[0].message, ServerMessage::GameStarted { current_player_id, .. } if *current_player_id == t.alice_id));
    assert_eq!(out[0].recipients, vec![ALICE, BOB, HOST]);
    let board = scoreboard_of(&out);
    assert_eq!(board.current_player_id, t.alice_id);
    assert_eq!((board.current_frame, board.current_roll, board.pins_remaining), (1, 1, 10));
    assert_eq!(board.players.len(), 2);
    assert_eq!(board.players[0].status_label, "Frame 1");

    let out = send(&mut t.st, BOB, &mut t.bob, throw());
    assert_eq!(error_text(&out).as_deref(), Some("not your turn"));

    let out = send(&mut t.st, HOST, &mut t.host, report(3, 7));
    assert_eq!(error_text(&out).as_deref(), Some("no throw in progress"));

    let out = send(&mut t.st, ALICE, &mut t.alice, throw());
    assert!(matches!(&out[0].message, ServerMessage::ThrowEvent { player_id, force_bits, .. } if *player_id == t.alice_id && *force_bits == 0.5f32.to_bits()));
    let out = send(&mut t.st, ALICE, &mut t.alice, throw());
    assert_eq!(error_text(&out).as_deref(), Some("throw already in progress"));

    let out = send(&mut t.st, HOST, &mut t.host, report(11, 0));
    assert_eq!(error_text(&out).as_deref(), Some("knocked pins exceed remaining pins"));
    let out = send(&mut t.st, HOST, &mut t.host, report(7, 2));
    assert_eq!(error_text(&out).as_deref(), Some("standing pins do not match throw result"));
    let out = send(&mut t.st, HOST, &mut t.host, report(7, 3));
    let board = scoreboard_of(&out);
    assert_eq!(board.current_player_id, t.alice_id);
    assert_eq!((board.current_roll, board.pins_remaining), (2, 3));
    assert_eq!(board.players[0].frames[0].rolls, vec!["7"]);

    send(&mut t.st, ALICE, &mut t.alice, throw());
    let out = send(&mut t.st, HOST, &mut t.host, report(3, 0));
    let board = scoreboard_of(&out);
    assert_eq!(board.current_player_id, t.bob_id);
    assert_eq!((board.current_frame, board.current_roll, board.pins_remaining), (1, 1, 10));
    assert_eq!(board.players[0].player_id, t.bob_id);
    assert_eq!(board.players[1].frames[0].rolls, vec!["7", "/"]);
    assert_eq!(board.players[1].frames[0].cumulative_score, None);
    assert_eq!(board.players[1].status_label, "Frame 2");
}

#[test]
fn a_lone_player_bowls_a_perfect_game() {
    let (mut st, mut host, code, _) = create();
    let (mut alice, _, _, _) = join(&mut st, ALICE, &code, "alice");
    send(&mut st, HOST, &mut host, ClientMessage::StartGame);
    let mut last = None;
    for _ in 0..12 {
        send(&mut st, ALICE, &mut alice, throw());
        let out = send(&mut st, HOST, &mut host, report(10, 0));
        last = Some(scoreboard_of(&out));
    }
    let board = last.unwrap();
    assert!(board.game_over);
    assert_eq!(board.current_player_id, "");
    assert_eq!(board.current_frame, 0);
    assert_eq!(board.players[0].total_score, 300);
    assert!(board.players[0].finished);
    assert_eq!(board.players[0].status_label, "Done");
    let out = send(&mut st, ALICE, &mut alice, throw());
    assert_eq!(error_text(&out).as_deref(), Some("no active player turn"));
}

#[test]
fn a_player_reconnects_after_losing_the_connection() {
    let mut t = table();
    let alice_role = t.alice.clone().unwrap();
    let out = t.st.disconnect_connection(&alice_role, 1000);
    assert_eq!(out.len(), 1);
    assert_eq!(out[0].recipients, vec![BOB, HOST]);
    match &out[0].message {
        ServerMessage::LobbyUpdated { players, .. } => {
            assert!(!players[0].connected);
            assert!(players[1].connected);
        },
        other => panic!("unexpected {:?}", other),
    }
    let mut again = None;
    let out = send(
        &mut t.st,
        9,
        &mut again,
        ClientMessage::ReconnectPlayer { code: t.code.clone(), player_session: t.alice_session.clone() },
    );
    assert!(matches!(&out[0].message, ServerMessage::ReconnectOkPlayer { player_id, .. } if *player_id == t.alice_id));
    assert_eq!(out[0].recipients, vec![9]);
    assert_eq!(again, Some(ConnectionRole::Player { code: t.code.clone(), session: t.alice_session.clone() }));
    let bad = send(
        &mut t.st,
        9,
        &mut None,
        ClientMessage::ReconnectPlayer { code: t.code.clone(), player_session: "nope".into() },
    );
    assert_eq!(error_text(&bad).as_deref(), Some("player reconnect failed"));
}

#[test]
fn host_reconnects_and_gets_the_scoreboard() {
    let mut t = table();
    send(&mut t.st, HOST, &mut t.host, ClientMessage::StartGame);
    let host_role = t.host.clone().unwrap();
    assert!(t.st.disconnect_connection(&host_role, 5).is_empty());
    let mut role = None;
    let out = send(
        &mut t.st,
        7,
        &mut role,
        ClientMessage::ReconnectHost { code: t.code.clone(), host_session: t.host_session.clone() },
    );
    assert_eq!(out.len(), 3);
    assert!(matches!(&out[0].message, ServerMessage::ReconnectOkHost { players, .. } if players.len() == 2));
    assert!(matches!(&out[1].message, ServerMessage::ScoreboardUpdated { .. }));
    assert_eq!(out[2].recipients, vec![ALICE, BOB, 7]);
    let wrong = send(&mut t.st, 8, &mut None, ClientMessage::ReconnectHost { code: t.code.clone(), host_session: "x".into() });
    assert_eq!(error_text(&wrong).as_deref(), Some("host reconnect failed"));
}

#[test]
fn host_leaving_closes_the_lobby() {
    let mut t = table();
    let out = send(&mut t.st, HOST, &mut t.host, ClientMessage::Leave);
    assert_eq!(t.host, None);
    assert_eq!(error_text(&out).as_deref(), Some("lobby closed: host left"));
    assert_eq!(out[0].recipients, vec![HOST, ALICE, BOB]);
    assert_eq!(t.st.lobby_count(), 0);
    let out = send(
        &mut t.st,
        9,
        &mut None,
        ClientMessage::ReconnectPlayer { code: t.code.clone(), player_session: t.alice_session.clone() },
    );
    assert_eq!(error_text(&out).as_deref(), Some("player reconnect failed"));
}

#[test]
fn player_leaving_is_removed_and_told() {
    let mut t = table();
    send(&mut t.st, HOST, &mut t.host, ClientMessage::StartGame);
    let out = send(&mut t.st, ALICE, &mut t.alice, ClientMessage::Leave);
    assert_eq!(t.alice, None);
    assert_eq!(out[0].recipients, vec![ALICE]);
    assert_eq!(error_text(&out[..1]).as_deref(), Some("disconnected: reconnect timeout"));
    match &out[1].message {
        ServerMessage::LobbyUpdated { players, .. } => {
            assert_eq!(players.len(), 1);
            assert_eq!(players[0].player_id, t.bob_id);
        },
        other => panic!("unexpected {:?}", other),
    }
    assert_eq!(out.len(), 2);
    let out = send(&mut t.st, BOB, &mut t.bob, throw());
    assert!(matches!(&out[0].message, ServerMessage::ThrowEvent { player_id, .. } if *player_id == t.bob_id));
}

#[test]
fn disconnected_turn_holder_is_skipped() {
    let mut t = table();
    send(&mut t.st, HOST, &mut t.host, ClientMessage::StartGame);
    let alice_role = t.alice.clone().unwrap();
    let out = t.st.disconnect_connection(&alice_role, 0);
    assert_eq!(out.len(), 2);
    let board = scoreboard_of(&out);
    assert_eq!(board.current_player_id, t.bob_id);
}

#[test]
fn timeouts_close_lobbies_and_remove_players() {
    let mut t = table();
    let alice_role = t.alice.clone().unwrap();
    t.st.disconnect_connection(&alice_role, 1000);
    assert!(t.st.cleanup_timeouts(301000).is_empty());
    let out = t.st.cleanup_timeouts(301001);
    match &out[0].message {
        ServerMessage::LobbyUpdated { players, .. } => {
            assert_eq!(players.len(), 1);
            assert_eq!(players[0].player_id, t.bob_id);
        },
        other => panic!("unexpected {:?}", other),
    }
    let host_role = t.host.clone().unwrap();
    t.st.disconnect_connection(&host_role, 500000);
    let out = t.st.cleanup_timeouts(900000);
    assert_eq!(error_text(&out).as_deref(), Some("lobby closed: host timeout"));
    assert_eq!(out[0].recipients, vec![BOB]);
    assert_eq!(t.st.lobby_count(), 0);
}

#[test]
fn throw_parameters_are_checked_after_the_turn() {
    let mut t = table();
    send(&mut t.st, HOST, &mut t.host, ClientMessage::StartGame);
    let out = t.st.handle_client_message(ALICE, &mut t.alice, throw(), ThrowCheck::ForceOutOfRange);
    assert_eq!(error_text(&out).as_deref(), Some("throw force must be between 0 and 1"));
    let out = t.st.handle_client_message(ALICE, &mut t.alice, throw(), ThrowCheck::DirectionNotFinite);
    assert_eq!(error_text(&out).as_deref(), Some("throw direction must be finite"));
    let out = t.st.handle_client_message(ALICE, &mut t.alice, throw(), ThrowCheck::DirectionNotNormalized);
    assert_eq!(error_text(&out).as_deref(), Some("throw direction must be normalized"));
    let out = t.st.handle_client_message(BOB, &mut t.bob, throw(), ThrowCheck::ForceOutOfRange);
    assert_eq!(error_text(&out).as_deref(), Some("not your turn"));
}

#[test]
fn throwing_before_the_game_is_refused() {
    let mut t = table();
    let out = send(&mut t.st, ALICE, &mut t.alice, throw());
    assert_eq!(error_text(&out).as_deref(), Some("game has not started"));
    let out = send(&mut t.st, HOST, &mut t.host, report(1, 9));
    assert_eq!(error_text(&out).as_deref(), Some("game has not started"));
}

#[test]
fn removing_an_earlier_player_keeps_the_turn_holder() {
    let mut t = table();
    send(&mut t.st, HOST, &mut t.host, ClientMessage::StartGame);
    send(&mut t.st, ALICE, &mut t.alice, throw());
    send(&mut t.st, HOST, &mut t.host, report(3, 7));
    send(&mut t.st, ALICE, &mut t.alice, throw());
    let out = send(&mut t.st, HOST, &mut t.host, report(4, 3));
    assert_eq!(scoreboard_of(&out).current_player_id, t.bob_id);

    let out = t.st.remove_player_session(&t.code, &t.alice_id, &t.alice_session);
    assert_eq!(out.len(), 2);
    assert_eq!(out[0].recipients, vec![ALICE]);
    assert_eq!(error_text(&out[..1]).as_deref(), Some("disconnected: reconnect timeout"));
    assert!(matches!(&out[1].message, ServerMessage::LobbyUpdated { players, .. } if players.len() == 1));
    let lobby = t.st.lobbies.get(&t.code).unwrap();
    assert_eq!(lobby.player_order, vec![t.bob_id.clone()]);
    assert_eq!(lobby.current_turn, Some(0));
    let out = send(&mut t.st, BOB, &mut t.bob, throw());
    assert!(matches!(&out[0].message, ServerMessage::ThrowEvent { player_id, .. } if *player_id == t.bob_id));
}
