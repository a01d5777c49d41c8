use vstd::prelude::*;

use crate::board::{build_scoreboard, lobby_member_infos, lobby_players, next_connected_turn_index, scoreboard_model};
use crate::ids::{is_lobby_code, is_uuid_v4_text, new_identifier, new_lobby_code, LOBBY_CODE_SPACE};
use crate::lobby::{broadcast_to, lemma_well_formed_totals_fit, send_one, send_to};
use crate::protocol::{Outgoing, OutgoingModel, ServerMessage, ServerMessageModel, outgoing_model};
use crate::scoring::{PlayerBowlingState, frames_shaped};
use crate::state::{AppState, BowlingState, Lobby, Player, PlayerSessionRef, game_well_formed, next_turn};
use crate::strmap::StrMap;

verus! {

/// Whether `lobby` is a lobby just created by a host with session `host_session` on
/// connection `connection`: no players and no game yet.
pub open spec fn is_new_lobby(lobby: Lobby, host_session: Seq<char>, connection: u64) -> bool {
    &&& lobby.host_session@ == host_session
    &&& lobby.host_connection == Some(connection)
    &&& lobby.host_disconnected_at is None
    &&& lobby.players@ == Map::<Seq<char>, Player>::empty()
    &&& lobby.player_order@.len() == 0
    &&& lobby.current_turn is None
    &&& !lobby.game_in_progress
    &&& !lobby.ball_in_play
    &&& lobby.bowling.players@ == Map::<Seq<char>, PlayerBowlingState>::empty()
    &&& lobby.bowling.pins_remaining == 0
    &&& lobby.bowling.current_roll == 0
    &&& !lobby.bowling.game_over
}

impl AppState {
    // -----------------------------------------------------------------------
    // Creating a lobby
    // -----------------------------------------------------------------------

    /// What creating a lobby does: a fresh five-digit code and a new host session; the
    /// lobby is registered under the code, the session under the lobby; the host hears
    /// the code and its session.
    pub open spec fn creates_lobby(
        pre: AppState,
        post: AppState,
        connection: u64,
        code: Seq<char>,
        host_session: Seq<char>,
        out: Seq<OutgoingModel>,
    ) -> bool {
        &&& !pre.lobbies@.contains_key(code)
        &&& is_lobby_code(code)
        &&& is_uuid_v4_text(host_session)
        &&& post.lobbies@ == pre.lobbies@.insert(code, post.lobbies@[code])
        &&& is_new_lobby(post.lobbies@[code], host_session, connection)
        &&& post.host_sessions@ == pre.host_sessions@.insert(host_session, post.host_sessions@[host_session])
        &&& post.host_sessions@[host_session]@ == code
        &&& post.player_sessions@ == pre.player_sessions@
        &&& out == seq![
            send_to(
                connection,
                ServerMessageModel::LobbyCreated { code, host_session, players: Seq::empty() },
            ),
        ]
    }

    /// Creates a lobby hosted on `connection`; returns its code and the host session.
    pub fn create_lobby(&mut self, connection: u64) -> (r: (String, String, Vec<Outgoing>))
        requires
            old(self).well_formed(),
            old(self).lobbies.entries().len() < LOBBY_CODE_SPACE,
        ensures
            AppState::creates_lobby(*old(self), *final(self), connection, r.0@, r.1@, outgoing_model(r.2@)),
            final(self).well_formed(),
    {
        let ghost pre = *self;
        let code = new_lobby_code(&self.lobbies);
        let host_session = new_identifier();
        let lobby = Lobby {
            host_session: host_session.clone(),
            host_connection: Some(connection),
            host_disconnected_at: None,
            players: StrMap::new(),
            player_order: Vec::new(),
            current_turn: None,
            game_in_progress: false,
            ball_in_play: false,
            bowling: BowlingState { players: StrMap::new(), pins_remaining: 0, current_roll: 0, game_over: false },
        };
        proof {
            assert(game_well_formed(lobby));
        }
        self.host_sessions.insert(host_session.clone(), code.clone());
        self.lobbies.insert(code.clone(), lobby);
        assert(self.lobbies@ =~= pre.lobbies@.insert(code@, self.lobbies@[code@]));
        let mut out: Vec<Outgoing> = Vec::new();
        out.push(
            send_one(
                connection,
                ServerMessage::LobbyCreated {
                    code: code.clone(),
                    host_session: host_session.clone(),
                    players: Vec::new(),
                },
            ),
        );
        proof {
            let m = out@[0].message@;
            assert(m == ServerMessageModel::LobbyCreated {
                code: code@,
                host_session: host_session@,
                players: Seq::empty(),
            }) by {
                if let ServerMessage::LobbyCreated { players, .. } = out@[0].message {
                    assert(crate::protocol::infos_model(players@) =~= Seq::empty());
                }
            }
            assert(outgoing_model(out@) =~= seq![
                send_to(
                    connection,
                    ServerMessageModel::LobbyCreated { code: code@, host_session: host_session@, players: Seq::empty() },
                ),
            ]);
        }
        (code, host_session, out)
    }

    // -----------------------------------------------------------------------
    // Joining a lobby
    // -----------------------------------------------------------------------

    /// What joining lobby `code` as `username` does: with no such lobby, nothing (the
    /// result is `None`); otherwise a new player with fresh id and session, connected on
    /// `connection`, becomes the last in the turn order, the session is registered, the
    /// player hears its id and session, and the lobby hears the member list.
    pub open spec fn joins(
        pre: AppState,
        post: AppState,
        connection: u64,
        code: Seq<char>,
        username: Seq<char>,
        joined: Option<(Seq<char>, Seq<char>)>,
        out: Seq<OutgoingModel>,
    ) -> bool {
        if !pre.lobbies@.contains_key(code) {
            joined is None && post.same_as(pre) && out == Seq::<OutgoingModel>::empty()
        } else {
            let lobby = pre.lobbies@[code];
            let after = post.lobbies@[code];
            &&& joined is Some
            &&& {
                let (player_id, session) = joined->0;
                let p = after.players@[player_id];
                &&& is_uuid_v4_text(player_id)
                &&& is_uuid_v4_text(session)
                &&& post.lobbies@ == pre.lobbies@.insert(code, after)
                &&& after == Lobby { players: after.players, player_order: after.player_order, ..lobby }
                &&& after.players@ == lobby.players@.insert(player_id, p)
                &&& p.username@ == username
                &&& p.session@ == session
                &&& p.connection == Some(connection)
                &&& p.disconnected_at is None
                &&& after.player_order@.drop_last() == lobby.player_order@
                &&& after.player_order@.len() == lobby.player_order@.len() + 1
                &&& after.player_order@.last()@ == player_id
                &&& post.player_sessions@ == pre.player_sessions@.insert(session, post.player_sessions@[session])
                &&& post.player_sessions@[session].code@ == code
                &&& post.player_sessions@[session].player_id@ == player_id
                &&& post.host_sessions@ == pre.host_sessions@
                &&& out == seq![
                    send_to(
                        connection,
                        ServerMessageModel::LobbyJoined {
                            code,
                            player_id,
                            player_session: session,
                            players: lobby_member_infos(after),
                        },
                    ),
                ] + broadcast_to(
                    post.lobbies@,
                    code,
                    ServerMessageModel::LobbyUpdated { code, players: lobby_member_infos(after) },
                )
            }
        }
    }

    /// Joins lobby `code` as `username` on `connection`; returns the new player id and
    /// session, or `None` if there is no such lobby.
    pub fn join_lobby(&mut self, connection: u64, code: &String, username: String) -> (r: (
        Option<(String, String)>,
        Vec<Outgoing>,
    ))
        requires
            old(self).well_formed(),
        ensures
            AppState::joins(
                *old(self),
                *final(self),
                connection,
                code@,
                username@,
                match r.0 {
                    Some((a, b)) => Some((a@, b@)),
                    None => None,
                },
                outgoing_model(r.1@),
            ),
            final(self).well_formed(),
    {
        let ghost pre = *self;
        let mut lobby = match self.lobbies.remove(code) {
            Some(l) => l,
            None => {
                assert(self.lobbies@ =~= pre.lobbies@);
                let empty: Vec<Outgoing> = Vec::new();
                assert(outgoing_model(empty@) =~= Seq::<OutgoingModel>::empty());
                return (None, empty);
            },
        };
        let ghost before = lobby;
        let player_id = new_identifier();
        let player_session = new_identifier();
        let player = Player {
            username,
            session: player_session.clone(),
            connection: Some(connection),
            disconnected_at: None,
        };
        lobby.players.insert(player_id.clone(), player);
        lobby.player_order.push(player_id.clone());
        proof {
            assert(game_well_formed(lobby));
            assert(lobby.player_order@.drop_last() =~= before.player_order@);
        }
        let players = lobby_players(&lobby);
        let players_again = lobby_players(&lobby);
        self.lobbies.insert(code.clone(), lobby);
        assert(self.lobbies@ =~= pre.lobbies@.insert(code@, lobby));
        self.player_sessions.insert(
            player_session.clone(),
            PlayerSessionRef { code: code.clone(), player_id: player_id.clone() },
        );
        let mut out: Vec<Outgoing> = Vec::new();
        out.push(
            send_one(
                connection,
                ServerMessage::LobbyJoined {
                    code: code.clone(),
                    player_id: player_id.clone(),
                    player_session: player_session.clone(),
                    players,
                },
            ),
        );
        let ghost first = outgoing_model(out@);
        let mut updated = self.broadcast_lobby(
            code,
            ServerMessage::LobbyUpdated { code: code.clone(), players: players_again },
        );
        let ghost second = outgoing_model(updated@);
        out.append(&mut updated);
        assert(outgoing_model(out@) =~= first + second);
        proof {
            let post = *self;
            let after = post.lobbies@[code@];
            assert(after == lobby);
            assert(post.lobbies@ == pre.lobbies@.insert(code@, after));
            assert(after == Lobby { players: after.players, player_order: after.player_order, ..before });
            let p = after.players@[player_id@];
            assert(after.players@ == before.players@.insert(player_id@, p));
            assert(p.username@ == username@);
            assert(after.player_order@.last()@ == player_id@);
            assert(post.player_sessions@ == pre.player_sessions@.insert(player_session@, post.player_sessions@[player_session@]));
            assert(post.host_sessions@ == pre.host_sessions@);
            assert(post.player_sessions@[player_session@].code@ == code@);
            assert(post.player_sessions@[player_session@].player_id@ == player_id@);
            assert(first == seq![
                    send_to(
                        connection,
                        ServerMessageModel::LobbyJoined {
                            code: code@,
                            player_id: player_id@,
                            player_session: player_session@,
                            players: lobby_member_infos(after),
                        },
                    ),
                ]);
            assert(second == broadcast_to(
                    post.lobbies@,
                    code@,
                    ServerMessageModel::LobbyUpdated { code: code@, players: lobby_member_infos(after) },
                ));
        }
        (Some((player_id, player_session)), out)
    }

    // -----------------------------------------------------------------------
    // Reconnecting
    // -----------------------------------------------------------------------

    /// What a host reconnecting to lobby `code` with session `session` on `connection`
    /// does: it succeeds when the session leads to that lobby and is its host session;
    /// then the host is connected again, hears the member list (and the scoreboard of a
    /// game in progress), and the lobby hears the member list.
    pub open spec fn reconnects_host(
        pre: AppState,
        post: AppState,
        connection: u64,
        code: Seq<char>,
        session: Seq<char>,
        ok: bool,
        out: Seq<OutgoingModel>,
    ) -> bool {
        let lobby = pre.lobbies@[code];
        let found = pre.host_sessions@.contains_key(session) && pre.host_sessions@[session]@ == code
            && pre.lobbies@.contains_key(code) && lobby.host_session@ == session;
        let after = Lobby { host_connection: Some(connection), host_disconnected_at: None, ..lobby };
        &&& ok == found
        &&& if !found {
            post.same_as(pre) && out == Seq::<OutgoingModel>::empty()
        } else {
            &&& post.lobbies@ == pre.lobbies@.insert(code, after)
            &&& post.player_sessions@ == pre.player_sessions@
            &&& post.host_sessions@ == pre.host_sessions@
            &&& out == seq![
                send_to(
                    connection,
                    ServerMessageModel::ReconnectOkHost { code, players: lobby_member_infos(after) },
                ),
            ] + (if lobby.game_in_progress {
                seq![
                    send_to(
                        connection,
                        ServerMessageModel::ScoreboardUpdated { scoreboard: scoreboard_model(after) },
                    ),
                ]
            } else {
                Seq::<OutgoingModel>::empty()
            }) + broadcast_to(
                post.lobbies@,
                code,
                ServerMessageModel::LobbyUpdated { code, players: lobby_member_infos(after) },
            )
        }
    }

    /// A host reconnects to lobby `code` with session `session` on `connection`.
    pub fn reconnect_host(&mut self, connection: u64, code: &String, session: &String) -> (r: (bool, Vec<Outgoing>))
        requires
            old(self).well_formed(),
        ensures
            AppState::reconnects_host(*old(self), *final(self), connection, code@, session@, r.0, outgoing_model(r.1@)),
            final(self).well_formed(),
    {
        let ghost pre = *self;
        let empty: Vec<Outgoing> = Vec::new();
        assert(outgoing_model(empty@) =~= Seq::<OutgoingModel>::empty());
        match self.host_sessions.get(session) {
            Some(mapped) => {
                if *mapped != *code {
                    return (false, empty);
                }
            },
            None => {
                return (false, empty);
            },
        }
        let mut lobby = match self.lobbies.remove(code) {
            Some(l) => l,
            None => {
                assert(self.lobbies@ =~= pre.lobbies@);
                return (false, empty);
            },
        };
        if lobby.host_session != *session {
            self.lobbies.insert(code.clone(), lobby);
            assert(self.lobbies@ =~= pre.lobbies@);
            return (false, empty);
        }
        lobby.host_connection = Some(connection);
        lobby.host_disconnected_at = None;
        proof {
            assert(game_well_formed(lobby));
            lemma_well_formed_totals_fit(lobby);
        }
        let in_progress = lobby.game_in_progress;
        let scoreboard = if in_progress {
            Some(build_scoreboard(&lobby))
        } else {
            None
        };
        let players = lobby_players(&lobby);
        let players_again = lobby_players(&lobby);
        self.lobbies.insert(code.clone(), lobby);
        assert(self.lobbies@ =~= pre.lobbies@.insert(code@, lobby));
        let mut out: Vec<Outgoing> = Vec::new();
        out.push(send_one(connection, ServerMessage::ReconnectOkHost { code: code.clone(), players }));
        match scoreboard {
            Some(board) => {
                out.push(send_one(connection, ServerMessage::ScoreboardUpdated { scoreboard: board }));
            },
            None => {},
        }
        let ghost first = outgoing_model(out@);
        let mut updated = self.broadcast_lobby(
            code,
            ServerMessage::LobbyUpdated { code: code.clone(), players: players_again },
        );
        let ghost second = outgoing_model(updated@);
        out.append(&mut updated);
        proof {
            assert(outgoing_model(out@) =~= first + second);
            if in_progress {
                assert(first =~= seq![
                    send_to(
                        connection,
                        ServerMessageModel::ReconnectOkHost { code: code@, players: lobby_member_infos(lobby) },
                    ),
                ] + seq![
                    send_to(
                        connection,
                        ServerMessageModel::ScoreboardUpdated { scoreboard: scoreboard_model(lobby) },
                    ),
                ]);
            } else {
                assert(first =~= seq![
                    send_to(
                        connection,
                        ServerMessageModel::ReconnectOkHost { code: code@, players: lobby_member_infos(lobby) },
                    ),
                ] + Seq::<OutgoingModel>::empty());
            }
        }
        (true, out)
    }

    /// What a player reconnecting to lobby `code` with session `session` on `connection`
    /// does: it succeeds when the session leads to that lobby and its player is still a
    /// member; then the player is connected again, hears its id, session and the member
    /// list (and the scoreboard of a game in progress), and the lobby hears the member list.
    pub open spec fn reconnects_player(
        pre: AppState,
        post: AppState,
        connection: u64,
        code: Seq<char>,
        session: Seq<char>,
        ok: bool,
        out: Seq<OutgoingModel>,
    ) -> bool {
        let lobby = pre.lobbies@[code];
        let id = pre.player_sessions@[session].player_id@;
        let found = pre.player_sessions@.contains_key(session) && pre.player_sessions@[session].code@ == code
            && pre.lobbies@.contains_key(code) && lobby.players@.contains_key(id);
        &&& ok == found
        &&& if !found {
            post.same_as(pre) && out == Seq::<OutgoingModel>::empty()
        } else {
            let after = post.lobbies@[code];
            &&& post.lobbies@ == pre.lobbies@.insert(code, after)
            &&& after == Lobby { players: after.players, ..lobby }
            &&& after.players@ == lobby.players@.insert(
                id,
                Player { connection: Some(connection), disconnected_at: None, ..lobby.players@[id] },
            )
            &&& post.player_sessions@ == pre.player_sessions@
            &&& post.host_sessions@ == pre.host_sessions@
            &&& out == seq![
                send_to(
                    connection,
                    ServerMessageModel::ReconnectOkPlayer {
                        code,
                        player_id: id,
                        player_session: session,
                        players: lobby_member_infos(after),
                    },
                ),
            ] + (if lobby.game_in_progress {
                seq![
                    send_to(
                        connection,
                        ServerMessageModel::ScoreboardUpdated { scoreboard: scoreboard_model(after) },
                    ),
                ]
            } else {
                Seq::<OutgoingModel>::empty()
            }) + broadcast_to(
                post.lobbies@,
                code,
                ServerMessageModel::LobbyUpdated { code, players: lobby_member_infos(after) },
            )
        }
    }

    /// A player reconnects to lobby `code` with session `session` on `connection`.
    pub fn reconnect_player(&mut self, connection: u64, code: &String, session: &String) -> (r: (
        bool,
        Vec<Outgoing>,
    ))
        requires
            old(self).well_formed(),
        ensures
            AppState::reconnects_player(
                *old(self),
                *final(self),
                connection,
                code@,
                session@,
                r.0,
                outgoing_model(r.1@),
            ),
            final(self).well_formed(),
    {
        let ghost pre = *self;
        let empty: Vec<Outgoing> = Vec::new();
        assert(outgoing_model(empty@) =~= Seq::<OutgoingModel>::empty());
        let player_id = match self.player_sessions.get(session) {
            Some(r) => {
                if r.code != *code {
                    return (false, empty);
                }
                r.player_id.clone()
            },
            None => {
                return (false, empty);
            },
        };
        let mut lobby = match self.lobbies.remove(code) {
            Some(l) => l,
            None => {
                assert(self.lobbies@ =~= pre.lobbies@);
                return (false, empty);
            },
        };
        let ghost before = lobby;
        if !lobby.players.contains_key(&player_id) {
            self.lobbies.insert(code.clone(), lobby);
            assert(self.lobbies@ =~= pre.lobbies@);
            return (false, empty);
        }
        match lobby.players.remove(&player_id) {
            Some(mut p) => {
                p.connection = Some(connection);
                p.disconnected_at = None;
                lobby.players.insert(player_id.clone(), p);
                assert(lobby.players@ =~= before.players@.insert(player_id@, p));
            },
            None => {},
        }
        proof {
            assert(game_well_formed(lobby));
            lemma_well_formed_totals_fit(lobby);
        }
        let in_progress = lobby.game_in_progress;
        let scoreboard = if in_progress {
            Some(build_scoreboard(&lobby))
        } else {
            None
        };
        let players = lobby_players(&lobby);
        let players_again = lobby_players(&lobby);
        self.lobbies.insert(code.clone(), lobby);
        assert(self.lobbies@ =~= pre.lobbies@.insert(code@, lobby));
        let mut out: Vec<Outgoing> = Vec::new();
        out.push(
            send_one(
                connection,
                ServerMessage::ReconnectOkPlayer {
                    code: code.clone(),
                    player_id,
                    player_session: session.clone(),
                    players,
                },
            ),
        );
        match scoreboard {
            Some(board) => {
                out.push(send_one(connection, ServerMessage::ScoreboardUpdated { scoreboard: board }));
            },
            None => {},
        }
        let ghost first = outgoing_model(out@);
        let mut updated = self.broadcast_lobby(
            code,
            ServerMessage::LobbyUpdated { code: code.clone(), players: players_again },
        );
        let ghost second = outgoing_model(updated@);
        out.append(&mut updated);
        proof {
            assert(outgoing_model(out@) =~= first + second);
            let head = seq![
                send_to(
                    connection,
                    ServerMessageModel::ReconnectOkPlayer {
                        code: code@,
                        player_id: pre.player_sessions@[session@].player_id@,
                        player_session: session@,
                        players: lobby_member_infos(lobby),
                    },
                ),
            ];
            if in_progress {
                assert(first =~= head + seq![
                    send_to(
                        connection,
                        ServerMessageModel::ScoreboardUpdated { scoreboard: scoreboard_model(lobby) },
                    ),
                ]);
            } else {
                assert(first =~= head + Seq::<OutgoingModel>::empty());
            }
        }
        (true, out)
    }
}

} // verus!
