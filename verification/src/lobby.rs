use vstd::prelude::*;

use crate::board::{lobby_member_infos, lobby_players, scoreboard_model, build_scoreboard, next_connected_turn_index, totals_fit};
use crate::protocol::{
    Outgoing, OutgoingModel, ServerMessage, ServerMessageModel, outgoing_model, infos_model,
};
use crate::laws::shaped_scores_bounded;
use crate::state::{
    AppState, BowlingState, ConnectionRole, Lobby, Player, active_player_connected, host_connections, lobby_recipients,
    member_sessions, next_turn, player_connections, game_well_formed, order_without, position_from,
    turn_after_removal,
};
use crate::text::owned;
use crate::strmap::StrMap;

verus! {

// ---------------------------------------------------------------------------
// Messages
// ---------------------------------------------------------------------------

/// A message to one connection.
pub open spec fn send_to(connection: u64, message: ServerMessageModel) -> OutgoingModel {
    OutgoingModel { recipients: seq![connection], message }
}

/// A message to everyone in lobby `code`, if there is such a lobby.
pub open spec fn broadcast_to(lobbies: Map<Seq<char>, Lobby>, code: Seq<char>, message: ServerMessageModel) -> Seq<
    OutgoingModel,
> {
    if lobbies.contains_key(code) {
        seq![OutgoingModel { recipients: lobby_recipients(lobbies[code]), message }]
    } else {
        seq![]
    }
}

/// A message to one connection.
pub fn send_one(connection: u64, message: ServerMessage) -> (r: Outgoing)
    ensures
        r@ == send_to(connection, message@),
{
    let mut recipients: Vec<u64> = Vec::new();
    recipients.push(connection);
    assert(recipients@ =~= seq![connection]);
    Outgoing { recipients, message }
}

/// The connections of the connected players of a lobby, then the host's.
fn recipients_of(lobby: &Lobby) -> (r: Vec<u64>)
    ensures
        r@ == lobby_recipients(*lobby),
{
    let mut r: Vec<u64> = Vec::new();
    let n = lobby.players.entry_count();
    let mut i: usize = 0;
    while i < n
        invariant
            n == lobby.players.entries().len(),
            i <= n,
            r@ == player_connections(lobby.players.entries().subrange(0, i as int)),
        decreases n - i,
    {
        let (_, p) = lobby.players.entry_at(i);
        proof {
            let e = lobby.players.entries().subrange(0, i + 1);
            assert(e.drop_last() =~= lobby.players.entries().subrange(0, i as int));
        }
        match p.connection {
            Some(c) => r.push(c),
            None => {},
        }
        i = i + 1;
    }
    assert(lobby.players.entries().subrange(0, n as int) =~= lobby.players.entries());
    match lobby.host_connection {
        Some(c) => r.push(c),
        None => {},
    }
    assert(r@ =~= lobby_recipients(*lobby));
    r
}

/// A lobby whose game play can reach has scorecards whose totals fit in 16 bits.
pub proof fn lemma_well_formed_totals_fit(lobby: Lobby)
    requires
        game_well_formed(lobby),
    ensures
        totals_fit(lobby),
{
    assert forall|id: Seq<char>| #[trigger] lobby.bowling.players@.contains_key(id) implies crate::scoring::running_total(
        lobby.bowling.players@[id]@,
        9,
    ) <= u16::MAX by {
        shaped_scores_bounded(lobby.bowling.players@[id]@);
    }
}

/// The first position of `id` in the turn order.
fn position_in_order(order: &Vec<String>, id: &String) -> (r: Option<usize>)
    ensures
        match r {
            Some(i) => position_from(order@, id@, 0) == Some(i as int),
            None => position_from(order@, id@, 0) is None,
        },
{
    let n = order.len();
    let mut i: usize = 0;
    while i < n
        invariant
            n == order@.len(),
            i <= n,
            position_from(order@, id@, 0) == position_from(order@, id@, i as int),
        decreases n - i,
    {
        if order[i] == *id {
            return Some(i);
        }
        i = i + 1;
    }
    None
}

/// The turn order without player `id`.
fn order_without_player(order: &Vec<String>, id: &String) -> (r: Vec<String>)
    ensures
        r@ == order_without(order@, id@),
{
    let mut r: Vec<String> = Vec::new();
    let n = order.len();
    let mut i: usize = 0;
    while i < n
        invariant
            n == order@.len(),
            i <= n,
            r@ == order_without(order@.subrange(0, i as int), id@),
        decreases n - i,
    {
        proof {
            let s = order@.subrange(0, i + 1);
            assert(s.drop_last() =~= order@.subrange(0, i as int));
        }
        if order[i] != *id {
            r.push(order[i].clone());
        }
        i = i + 1;
    }
    assert(order@.subrange(0, n as int) =~= order@);
    r
}

impl AppState {
    /// A server with no lobbies.
    pub fn new() -> (s: Self)
        ensures
            s.lobbies@ == Map::<Seq<char>, Lobby>::empty(),
            s.player_sessions@.dom().is_empty(),
            s.host_sessions@.dom().is_empty(),
            s.lobbies.entries().len() == 0,
            s.well_formed(),
            s.consistent(),
    {
        AppState { lobbies: StrMap::new(), player_sessions: StrMap::new(), host_sessions: StrMap::new() }
    }

    /// How many lobbies are open.
    pub fn lobby_count(&self) -> (n: usize)
        ensures
            n == self.lobbies.entries().len(),
    {
        self.lobbies.entry_count()
    }

    /// A message to everyone in lobby `code`: its connected players, then its host.
    pub fn broadcast_lobby(&self, code: &String, message: ServerMessage) -> (r: Vec<Outgoing>)
        ensures
            outgoing_model(r@) == broadcast_to(self.lobbies@, code@, message@),
    {
        let mut r: Vec<Outgoing> = Vec::new();
        match self.lobbies.get(code) {
            Some(lobby) => {
                let recipients = recipients_of(lobby);
                r.push(Outgoing { recipients, message });
            },
            None => {},
        }
        assert(outgoing_model(r@) =~= broadcast_to(self.lobbies@, code@, message@));
        r
    }

    // -----------------------------------------------------------------------
    // Closing a lobby
    // -----------------------------------------------------------------------

    /// What closing lobby `code` does: the lobby and all its sessions go, and its host
    /// and connected players are told `reason`.
    pub open spec fn closes_lobby(
        pre: AppState,
        post: AppState,
        code: Seq<char>,
        reason: Seq<char>,
        out: Seq<OutgoingModel>,
    ) -> bool {
        if !pre.lobbies@.contains_key(code) {
            post.same_as(pre) && out == Seq::<OutgoingModel>::empty()
        } else {
            let lobby = pre.lobbies@[code];
            &&& post.lobbies@ == pre.lobbies@.remove(code)
            &&& post.host_sessions@ == pre.host_sessions@.remove(lobby.host_session@)
            &&& post.player_sessions@ == pre.player_sessions@.remove_keys(member_sessions(lobby))
            &&& out == seq![
                OutgoingModel {
                    recipients: host_connections(lobby) + player_connections(lobby.players.entries()),
                    message: ServerMessageModel::Error { message: reason },
                },
            ]
        }
    }

    /// Closes lobby `code`, dropping its sessions and telling its members why.
    pub fn close_lobby(&mut self, code: &String, reason: &String) -> (out: Vec<Outgoing>)
        ensures
            AppState::closes_lobby(*old(self), *final(self), code@, reason@, outgoing_model(out@)),
    {
        let ghost pre = *self;
        let lobby = match self.lobbies.remove(code) {
            Some(l) => l,
            None => {
                let out: Vec<Outgoing> = Vec::new();
                assert(outgoing_model(out@) =~= Seq::<OutgoingModel>::empty());
                assert(self.lobbies@ =~= pre.lobbies@);
                return out;
            },
        };
        self.host_sessions.remove(&lobby.host_session);
        let mut recipients: Vec<u64> = Vec::new();
        match lobby.host_connection {
            Some(c) => recipients.push(c),
            None => {},
        }
        lobby.players.reveal_entries();
        let ghost entries = lobby.players.entries();
        let ghost sessions0 = self.player_sessions@;
        let n = lobby.players.entry_count();
        let mut i: usize = 0;
        while i < n
            invariant
                n == entries.len(),
                entries == lobby.players.entries(),
                i <= n,
                lobby == pre.lobbies@[code@],
                pre.lobbies@.contains_key(code@),
                self.lobbies@ == pre.lobbies@.remove(code@),
                self.host_sessions@ == pre.host_sessions@.remove(lobby.host_session@),
                recipients@ == host_connections(lobby) + player_connections(entries.subrange(0, i as int)),
                self.player_sessions@ == sessions0.remove_keys(
                    Set::new(|s: Seq<char>| exists|j: int| 0 <= j < i && entries[j].1.session@ == s),
                ),
            decreases n - i,
        {
            let (_, p) = lobby.players.entry_at(i);
            self.player_sessions.remove(&p.session);
            proof {
                let e = entries.subrange(0, i + 1);
                assert(e.drop_last() =~= entries.subrange(0, i as int));
            }
            match p.connection {
                Some(c) => recipients.push(c),
                None => {},
            }
            proof {
                let before = Set::new(|s: Seq<char>| exists|j: int| 0 <= j < i && entries[j].1.session@ == s);
                let after = Set::new(|s: Seq<char>| exists|j: int| 0 <= j < i + 1 && entries[j].1.session@ == s);
                assert(after =~= before.insert(entries[i as int].1.session@));
                assert(self.player_sessions@ =~= sessions0.remove_keys(after));
            }
            i = i + 1;
        }
        proof {
            assert(entries.subrange(0, n as int) =~= entries);
            let all = Set::new(|s: Seq<char>| exists|j: int| 0 <= j < n && entries[j].1.session@ == s);
            assert(all =~= member_sessions(lobby)) by {
                assert forall|s: Seq<char>| all.contains(s) implies member_sessions(lobby).contains(s) by {
                    let j = choose|j: int| 0 <= j < n && entries[j].1.session@ == s;
                    assert(lobby.players@.contains_key(entries[j].0@));
                }
                assert forall|s: Seq<char>| member_sessions(lobby).contains(s) implies all.contains(s) by {
                    let id = choose|id: Seq<char>| lobby.players@.contains_key(id) && lobby.players@[id].session@ == s;
                    let j = choose|j: int| 0 <= j < entries.len() && entries[j].0@ == id;
                    assert(entries[j].1 == lobby.players@[id]);
                }
            }
            assert(self.player_sessions@ == pre.player_sessions@.remove_keys(member_sessions(lobby)));
            assert(recipients@ == host_connections(lobby) + player_connections(lobby.players.entries()));
            assert(self.lobbies@ == pre.lobbies@.remove(code@));
            assert(lobby == pre.lobbies@[code@]);
        }
        let mut out: Vec<Outgoing> = Vec::new();
        out.push(Outgoing { recipients, message: ServerMessage::Error { message: reason.clone() } });
        assert(outgoing_model(out@) =~= seq![
            OutgoingModel {
                recipients: host_connections(lobby) + player_connections(lobby.players.entries()),
                message: ServerMessageModel::Error { message: reason@ },
            },
        ]);
        out
    }

    // -----------------------------------------------------------------------
    // Moving the turn on when the active player is gone
    // -----------------------------------------------------------------------

    /// What checking the turn of lobby `code` after a change of players does: while a
    /// game is on and no ball is rolling, a turn held by a player who is not connected
    /// passes to the next connected player who has not finished (and everyone hears the
    /// scoreboard); with nobody left to play, the lobby has no turn, roll or pins.
    pub open spec fn advances_turn(pre: AppState, post: AppState, code: Seq<char>, out: Seq<OutgoingModel>) -> bool {
        let lobby = pre.lobbies@[code];
        if !pre.lobbies@.contains_key(code) || !lobby.game_in_progress || lobby.ball_in_play
            || active_player_connected(lobby) {
            post.same_as(pre) && out == Seq::<OutgoingModel>::empty()
        } else {
            &&& post.player_sessions@ == pre.player_sessions@
            &&& post.host_sessions@ == pre.host_sessions@
            &&& match next_turn(lobby, lobby.current_turn) {
                None => {
                    &&& post.lobbies@ == pre.lobbies@.insert(
                        code,
                        Lobby {
                            current_turn: None,
                            bowling: BowlingState { current_roll: 0, pins_remaining: 0, ..lobby.bowling },
                            ..lobby
                        },
                    )
                    &&& out == Seq::<OutgoingModel>::empty()
                },
                Some(t) => {
                    &&& post.lobbies@ == pre.lobbies@.insert(code, Lobby { current_turn: Some(t as usize), ..lobby })
                    &&& out == broadcast_to(
                        post.lobbies@,
                        code,
                        ServerMessageModel::ScoreboardUpdated { scoreboard: scoreboard_model(post.lobbies@[code]) },
                    )
                },
            }
        }
    }

    /// Passes the turn of lobby `code` on if the player holding it is not connected.
    pub fn advance_turn_after_player_change(&mut self, code: &String) -> (out: Vec<Outgoing>)
        requires
            old(self).well_formed(),
        ensures
            AppState::advances_turn(*old(self), *final(self), code@, outgoing_model(out@)),
            final(self).well_formed(),
    {
        let ghost pre = *self;
        let empty: Vec<Outgoing> = Vec::new();
        assert(outgoing_model(empty@) =~= Seq::<OutgoingModel>::empty());
        let mut lobby = match self.lobbies.remove(code) {
            Some(l) => l,
            None => {
                assert(self.lobbies@ =~= pre.lobbies@);
                return empty;
            },
        };
        proof {
            assert(game_well_formed(lobby));
        }
        if !lobby.game_in_progress || lobby.ball_in_play {
            self.lobbies.insert(code.clone(), lobby);
            assert(self.lobbies@ =~= pre.lobbies@);
            return empty;
        }
        let active_connected = match lobby.current_turn {
            Some(t) => if t < lobby.player_order.len() {
                match lobby.players.get(&lobby.player_order[t]) {
                    Some(p) => p.connection.is_some(),
                    None => false,
                }
            } else {
                false
            },
            None => false,
        };
        if active_connected {
            self.lobbies.insert(code.clone(), lobby);
            assert(self.lobbies@ =~= pre.lobbies@);
            return empty;
        }
        match next_connected_turn_index(&lobby, lobby.current_turn) {
            None => {
                lobby.current_turn = None;
                lobby.bowling.current_roll = 0;
                lobby.bowling.pins_remaining = 0;
                self.lobbies.insert(code.clone(), lobby);
                assert(self.lobbies@ =~= pre.lobbies@.insert(code@, lobby));
                empty
            },
            Some(next) => {
                lobby.current_turn = Some(next);
                proof {
                    lemma_well_formed_totals_fit(lobby);
                }
                let scoreboard = build_scoreboard(&lobby);
                self.lobbies.insert(code.clone(), lobby);
                assert(self.lobbies@ =~= pre.lobbies@.insert(code@, lobby));
                self.broadcast_lobby(code, ServerMessage::ScoreboardUpdated { scoreboard })
            },
        }
    }

    // -----------------------------------------------------------------------
    // Removing a player
    // -----------------------------------------------------------------------

    /// The first part of removing player `player_id` (with session `session`) from lobby
    /// `code`: the player leaves the members, the turn order and the game; the turn
    /// shifts to keep pointing at the same player; the session goes; the player, if
    /// connected, is told; the lobby hears the new member list.
    pub open spec fn drops_player(
        pre: AppState,
        mid: AppState,
        code: Seq<char>,
        player_id: Seq<char>,
        session: Seq<char>,
        out: Seq<OutgoingModel>,
    ) -> bool {
        let lobby = pre.lobbies@[code];
        let after = mid.lobbies@[code];
        &&& mid.lobbies@ == pre.lobbies@.insert(code, after)
        &&& after == Lobby {
            players: after.players,
            player_order: after.player_order,
            current_turn: turn_after_removal(
                lobby.current_turn,
                position_from(lobby.player_order@, player_id, 0),
                after.player_order@.len() as int,
            ),
            bowling: BowlingState { players: after.bowling.players, ..lobby.bowling },
            ..lobby
        }
        &&& after.players@ == lobby.players@.remove(player_id)
        &&& after.player_order@ == order_without(lobby.player_order@, player_id)
        &&& after.bowling.players@ == lobby.bowling.players@.remove(player_id)
        &&& mid.player_sessions@ == pre.player_sessions@.remove(session)
        &&& mid.host_sessions@ == pre.host_sessions@
        &&& out == (if lobby.players@.contains_key(player_id) && lobby.players@[player_id].connection is Some {
            seq![
                send_to(
                    lobby.players@[player_id].connection->0,
                    ServerMessageModel::Error { message: "disconnected: reconnect timeout"@ },
                ),
            ]
        } else {
            Seq::<OutgoingModel>::empty()
        }) + broadcast_to(
            mid.lobbies@,
            code,
            ServerMessageModel::LobbyUpdated { code, players: lobby_member_infos(after) },
        )
    }

    /// What removing player `player_id` (with session `session`) from lobby `code` does:
    /// nothing if there is no such lobby; otherwise the player is dropped, and then the
    /// turn moves on if its holder is gone.
    pub open spec fn removes_player(
        pre: AppState,
        post: AppState,
        code: Seq<char>,
        player_id: Seq<char>,
        session: Seq<char>,
        out: Seq<OutgoingModel>,
    ) -> bool {
        if !pre.lobbies@.contains_key(code) {
            post.same_as(pre) && out == Seq::<OutgoingModel>::empty()
        } else {
            exists|mid: AppState, out1: Seq<OutgoingModel>, out2: Seq<OutgoingModel>|
                AppState::drops_player(pre, mid, code, player_id, session, out1) && AppState::advances_turn(
                    mid,
                    post,
                    code,
                    out2,
                ) && out == out1 + out2
        }
    }

    /// Removes player `player_id`, whose session is `session`, from lobby `code`.
    pub fn remove_player_session(&mut self, code: &String, player_id: &String, session: &String) -> (out: Vec<
        Outgoing,
    >)
        requires
            old(self).well_formed(),
        ensures
            AppState::removes_player(*old(self), *final(self), code@, player_id@, session@, outgoing_model(out@)),
            final(self).well_formed(),
    {
        let ghost pre = *self;
        let mut lobby = match self.lobbies.remove(code) {
            Some(l) => l,
            None => {
                let empty: Vec<Outgoing> = Vec::new();
                assert(outgoing_model(empty@) =~= Seq::<OutgoingModel>::empty());
                assert(self.lobbies@ =~= pre.lobbies@);
                return empty;
            },
        };
        let ghost before = lobby;
        let removed_index = position_in_order(&lobby.player_order, player_id);
        let player = lobby.players.remove(player_id);
        lobby.player_order = order_without_player(&lobby.player_order, player_id);
        lobby.bowling.players.remove(player_id);
        match (lobby.current_turn, removed_index) {
            (Some(t), Some(r)) => {
                let n = lobby.player_order.len();
                lobby.current_turn = if n == 0 {
                    None
                } else if r < t {
                    Some(t - 1)
                } else if t >= n {
                    Some(0)
                } else {
                    Some(t)
                };
            },
            _ => {},
        }
        let players_after = lobby_players(&lobby);
        proof {
            assert(game_well_formed(lobby));
        }
        self.lobbies.insert(code.clone(), lobby);
        self.player_sessions.remove(session);
        let mut out: Vec<Outgoing> = Vec::new();
        match player {
            Some(p) => match p.connection {
                Some(c) => {
                    out.push(send_one(c, ServerMessage::Error { message: owned("disconnected: reconnect timeout") }));
                },
                None => {},
            },
            None => {},
        }
        let ghost notice = outgoing_model(out@);
        let ghost mid = *self;
        let mut updated = self.broadcast_lobby(
            code,
            ServerMessage::LobbyUpdated { code: code.clone(), players: players_after },
        );
        let ghost upd = outgoing_model(updated@);
        out.append(&mut updated);
        let ghost out1 = outgoing_model(out@);
        proof {
            assert(mid.lobbies@ =~= pre.lobbies@.insert(code@, lobby));
            assert(out1 =~= notice + upd);
            let after = mid.lobbies@[code@];
            assert(before == pre.lobbies@[code@]);
            assert(after.players@ == before.players@.remove(player_id@));
            assert(after.player_order@ == order_without(before.player_order@, player_id@));
            assert(after.bowling.players@ == before.bowling.players@.remove(player_id@));
            assert(after.current_turn == turn_after_removal(
                before.current_turn,
                position_from(before.player_order@, player_id@, 0),
                after.player_order@.len() as int,
            ));
            assert(after == Lobby {
                players: after.players,
                player_order: after.player_order,
                current_turn: after.current_turn,
                bowling: BowlingState { players: after.bowling.players, ..before.bowling },
                ..before
            });
            assert(notice == (if before.players@.contains_key(player_id@) && before.players@[player_id@].connection is Some {
            seq![
                send_to(
                    before.players@[player_id@].connection->0,
                    ServerMessageModel::Error { message: "disconnected: reconnect timeout"@ },
                ),
            ]
        } else {
            Seq::<OutgoingModel>::empty()
        }));
            assert(AppState::drops_player(pre, mid, code@, player_id@, session@, out1));
        }
        let mut moved = self.advance_turn_after_player_change(code);
        let ghost out2 = outgoing_model(moved@);
        out.append(&mut moved);
        proof {
            assert(outgoing_model(out@) =~= out1 + out2);
        }
        out
    }

    // -----------------------------------------------------------------------
    // Leaving and losing a connection
    // -----------------------------------------------------------------------

    /// What leaving does: a host closes the lobby; a player whose session is known is
    /// removed from lobby `code` (the one the connection joined).
    pub open spec fn leaves(pre: AppState, post: AppState, role: ConnectionRole, out: Seq<OutgoingModel>) -> bool {
        match role {
            ConnectionRole::Host { code, .. } => AppState::closes_lobby(pre, post, code@, "lobby closed: host left"@, out),
            ConnectionRole::Player { code, session } => if pre.player_sessions@.contains_key(session@) {
                AppState::removes_player(pre, post, code@, pre.player_sessions@[session@].player_id@, session@, out)
            } else {
                post.same_as(pre) && out == Seq::<OutgoingModel>::empty()
            },
        }
    }

    /// A connection leaves its lobby on purpose.
    pub fn leave_connection(&mut self, role: &ConnectionRole) -> (out: Vec<Outgoing>)
        requires
            old(self).well_formed(),
        ensures
            AppState::leaves(*old(self), *final(self), *role, outgoing_model(out@)),
            final(self).well_formed(),
    {
        match role {
            ConnectionRole::Host { code, .. } => {
                let reason = owned("lobby closed: host left");
                self.close_lobby(code, &reason)
            },
            ConnectionRole::Player { code, session } => {
                let player_id = match self.player_sessions.get(session) {
                    Some(r) => r.player_id.clone(),
                    None => {
                        let empty: Vec<Outgoing> = Vec::new();
                        assert(outgoing_model(empty@) =~= Seq::<OutgoingModel>::empty());
                        return empty;
                    },
                };
                self.remove_player_session(code, &player_id, session)
            },
        }
    }

    /// What losing the connection of `role` at time `now` does. A host whose session still
    /// leads to lobby `code` is marked disconnected. A player whose session leads to lobby
    /// `code` is marked disconnected, the lobby hears the member list, and the turn moves
    /// on if its holder is gone.
    pub open spec fn disconnects(
        pre: AppState,
        post: AppState,
        role: ConnectionRole,
        now: u64,
        out: Seq<OutgoingModel>,
    ) -> bool {
        match role {
            ConnectionRole::Host { code, session } => {
                let lobby = pre.lobbies@[code@];
                &&& out == Seq::<OutgoingModel>::empty()
                &&& if pre.host_sessions@.contains_key(session@) && pre.host_sessions@[session@]@ == code@
                    && pre.lobbies@.contains_key(code@) {
                    &&& post.lobbies@ == pre.lobbies@.insert(
                        code@,
                        Lobby { host_connection: None, host_disconnected_at: Some(now), ..lobby },
                    )
                    &&& post.player_sessions@ == pre.player_sessions@
                    &&& post.host_sessions@ == pre.host_sessions@
                } else {
                    post.same_as(pre)
                }
            },
            ConnectionRole::Player { code, session } => {
                let lobby = pre.lobbies@[code@];
                if !(pre.player_sessions@.contains_key(session@) && pre.player_sessions@[session@].code@ == code@
                    && pre.lobbies@.contains_key(code@)) {
                    post.same_as(pre) && out == Seq::<OutgoingModel>::empty()
                } else {
                    let id = pre.player_sessions@[session@].player_id@;
                    exists|mid: AppState, out2: Seq<OutgoingModel>|
                        {
                            &&& mid.player_sessions@ == pre.player_sessions@
                            &&& mid.host_sessions@ == pre.host_sessions@
                            &&& if lobby.players@.contains_key(id) {
                                &&& mid.lobbies@ == pre.lobbies@.insert(
                                    code@,
                                    Lobby { players: mid.lobbies@[code@].players, ..lobby },
                                )
                                &&& mid.lobbies@[code@].players@ == lobby.players@.insert(
                                    id,
                                    Player { connection: None, disconnected_at: Some(now), ..lobby.players@[id] },
                                )
                            } else {
                                mid.lobbies@ == pre.lobbies@
                            }
                            &&& AppState::advances_turn(mid, post, code@, out2)
                            &&& out == broadcast_to(
                                mid.lobbies@,
                                code@,
                                ServerMessageModel::LobbyUpdated {
                                    code: code@,
                                    players: lobby_member_infos(mid.lobbies@[code@]),
                                },
                            ) + out2
                        }
                }
            },
        }
    }

    /// The connection of `role` was lost at time `now` (milliseconds on the server clock).
    pub fn disconnect_connection(&mut self, role: &ConnectionRole, now: u64) -> (out: Vec<Outgoing>)
        requires
            old(self).well_formed(),
        ensures
            AppState::disconnects(*old(self), *final(self), *role, now, outgoing_model(out@)),
            final(self).well_formed(),
    {
        let ghost pre = *self;
        let empty: Vec<Outgoing> = Vec::new();
        assert(outgoing_model(empty@) =~= Seq::<OutgoingModel>::empty());
        match role {
            ConnectionRole::Host { code, session } => {
                match self.host_sessions.get(session) {
                    Some(mapped) => {
                        if *mapped != *code {
                            return empty;
                        }
                    },
                    None => {
                        return empty;
                    },
                }
                match self.lobbies.remove(code) {
                    Some(mut lobby) => {
                        lobby.host_connection = None;
                        lobby.host_disconnected_at = Some(now);
                        proof {
                            assert(game_well_formed(lobby));
                        }
                        self.lobbies.insert(code.clone(), lobby);
                        assert(self.lobbies@ =~= pre.lobbies@.insert(code@, lobby));
                    },
                    None => {
                        assert(self.lobbies@ =~= pre.lobbies@);
                    },
                }
                empty
            },
            ConnectionRole::Player { code, session } => {
                let player_id = match self.player_sessions.get(session) {
                    Some(r) => {
                        if r.code != *code {
                            return empty;
                        }
                        r.player_id.clone()
                    },
                    None => {
                        return empty;
                    },
                };
                let mut lobby = match self.lobbies.remove(code) {
                    Some(l) => l,
                    None => {
                        assert(self.lobbies@ =~= pre.lobbies@);
                        return empty;
                    },
                };
                let ghost before = lobby;
                if lobby.players.contains_key(&player_id) {
                    match lobby.players.remove(&player_id) {
                        Some(mut p) => {
                            p.connection = None;
                            p.disconnected_at = Some(now);
                            lobby.players.insert(player_id.clone(), p);
                            assert(lobby.players@ =~= before.players@.insert(player_id@, p));
                        },
                        None => {},
                    }
                }
                proof {
                    assert(game_well_formed(lobby));
                }
                let players = lobby_players(&lobby);
                self.lobbies.insert(code.clone(), lobby);
                let ghost mid = *self;
                proof {
                    if before.players@.contains_key(player_id@) {
                        assert(mid.lobbies@ =~= pre.lobbies@.insert(code@, lobby));
                    } else {
                        assert(lobby == before);
                        assert(mid.lobbies@ =~= pre.lobbies@);
                    }
                }
                let mut out = self.broadcast_lobby(code, ServerMessage::LobbyUpdated { code: code.clone(), players });
                let ghost out1 = outgoing_model(out@);
                let mut moved = self.advance_turn_after_player_change(code);
                let ghost out2 = outgoing_model(moved@);
                out.append(&mut moved);
                assert(outgoing_model(out@) =~= out1 + out2);
                out
            },
        }
    }
}

} // verus!
