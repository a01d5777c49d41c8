use vstd::prelude::*;

use crate::ids::LOBBY_CODE_SPACE;
use crate::lobby::{broadcast_to, send_one, send_to};
use crate::protocol::{ClientMessage, Outgoing, OutgoingModel, ServerMessage, ServerMessageModel, outgoing_model};
use crate::state::{AppState, ConnectionRole, Lobby, Player, ThrowCheck};
use crate::text::owned;

verus! {

/// How long a disconnected host or player is waited for, in milliseconds (five minutes).
pub const RECONNECT_TIMEOUT_MS: u64 = 300000;

/// What a connection is, as a model: host or player, with its lobby code and session.
pub open spec fn role_model(role: Option<ConnectionRole>) -> Option<(bool, Seq<char>, Seq<char>)> {
    match role {
        Some(ConnectionRole::Host { code, session }) => Some((true, code@, session@)),
        Some(ConnectionRole::Player { code, session }) => Some((false, code@, session@)),
        None => None,
    }
}

/// An error message to one connection.
pub open spec fn refuse(connection: u64, text: Seq<char>) -> Seq<OutgoingModel> {
    seq![send_to(connection, ServerMessageModel::Error { message: text })]
}

/// Whether something lost at `at` has been gone longer than the reconnect timeout at `now`.
pub open spec fn timed_out(at: Option<u64>, now: u64) -> bool {
    match at {
        Some(t) => (if now >= t {
            now - t
        } else {
            0
        }) > RECONNECT_TIMEOUT_MS,
        None => false,
    }
}

/// The codes of the lobbies among `entries` whose host has timed out, in order.
pub open spec fn expired_hosts(entries: Seq<(String, Lobby)>, now: u64) -> Seq<Seq<char>>
    decreases entries.len(),
{
    if entries.len() == 0 {
        seq![]
    } else {
        let prev = expired_hosts(entries.drop_last(), now);
        if timed_out(entries.last().1.host_disconnected_at, now) {
            prev.push(entries.last().0@)
        } else {
            prev
        }
    }
}

/// The (code, player id, session) of the players among `entries` of lobby `code` who have
/// timed out, in order.
pub open spec fn expired_members(code: Seq<char>, entries: Seq<(String, Player)>, now: u64) -> Seq<
    (Seq<char>, Seq<char>, Seq<char>),
>
    decreases entries.len(),
{
    if entries.len() == 0 {
        seq![]
    } else {
        let prev = expired_members(code, entries.drop_last(), now);
        if timed_out(entries.last().1.disconnected_at, now) {
            prev.push((code, entries.last().0@, entries.last().1.session@))
        } else {
            prev
        }
    }
}

/// The players who have timed out, lobby by lobby, in the lobbies among `entries` whose
/// host has not.
pub open spec fn expired_players(entries: Seq<(String, Lobby)>, now: u64) -> Seq<(Seq<char>, Seq<char>, Seq<char>)>
    decreases entries.len(),
{
    if entries.len() == 0 {
        seq![]
    } else {
        let prev = expired_players(entries.drop_last(), now);
        if timed_out(entries.last().1.host_disconnected_at, now) {
            prev
        } else {
            prev + expired_members(entries.last().0@, entries.last().1.players.entries(), now)
        }
    }
}

/// Whether `(code, player_id, session)` names a member of a lobby of `st` and its session.
pub open spec fn names_member(st: AppState, who: (Seq<char>, Seq<char>, Seq<char>)) -> bool {
    &&& st.lobbies@.contains_key(who.0)
    &&& st.lobbies@[who.0].players@.contains_key(who.1)
    &&& st.lobbies@[who.0].players@[who.1].session@ == who.2
}

fn has_timed_out(at: Option<u64>, now: u64) -> (r: bool)
    ensures
        r == timed_out(at, now),
{
    match at {
        Some(t) => {
            let elapsed = if now >= t {
                now - t
            } else {
                0
            };
            elapsed > RECONNECT_TIMEOUT_MS
        },
        None => false,
    }
}

impl AppState {
    /// What sweeping for timeouts at `now` does: every lobby whose host has been gone too
    /// long is closed, one after the other, and then every player who has been gone too
    /// long (in the other lobbies) is removed, one after the other.
    pub open spec fn sweeps(pre: AppState, post: AppState, now: u64, out: Seq<OutgoingModel>) -> bool {
        let closes = expired_hosts(pre.lobbies.entries(), now);
        let removals = expired_players(pre.lobbies.entries(), now);
        let c = closes.len() as int;
        let k = c + removals.len();
        &&& forall|j: int| 0 <= j < removals.len() ==> names_member(pre, #[trigger] removals[j])
        &&& exists|states: Seq<AppState>, outs: Seq<Seq<OutgoingModel>>|
            {
                &&& states.len() == k + 1
                &&& outs.len() == k
                &&& states[0] == pre
                &&& states[k] == post
                &&& forall|i: int|
                    #![trigger outs[i]]
                    0 <= i < c ==> AppState::closes_lobby(
                        states[i],
                        states[i + 1],
                        closes[i],
                        "lobby closed: host timeout"@,
                        outs[i],
                    )
                &&& forall|i: int|
                    #![trigger outs[i]]
                    c <= i < k ==> AppState::removes_player(
                        states[i],
                        states[i + 1],
                        removals[i - c].0,
                        removals[i - c].1,
                        removals[i - c].2,
                        outs[i],
                    )
                &&& out == outs.flatten()
            }
    }

    /// Closes the lobbies whose host, and removes the players who, have been disconnected
    /// for longer than the reconnect timeout at `now` (milliseconds on the server clock).
    pub fn cleanup_timeouts(&mut self, now: u64) -> (out: Vec<Outgoing>)
        requires
            old(self).well_formed(),
        ensures
            AppState::sweeps(*old(self), *final(self), now, outgoing_model(out@)),
            final(self).well_formed(),
    {
        let ghost pre = *self;
        let ghost entries = self.lobbies.entries();
        let mut close_codes: Vec<String> = Vec::new();
        let mut removals: Vec<(String, String, String)> = Vec::new();
        self.lobbies.reveal_entries();
        let n = self.lobbies.entry_count();
        let mut i: usize = 0;
        while i < n
            invariant
                n == entries.len(),
                entries == self.lobbies.entries(),
                i <= n,
                close_codes@.map_values(|c: String| c@) == expired_hosts(entries.subrange(0, i as int), now),
                removals@.map_values(|r: (String, String, String)| (r.0@, r.1@, r.2@)) == expired_players(
                    entries.subrange(0, i as int),
                    now,
                ),
                forall|x: int|
                    0 <= x < removals@.len() ==> names_member(
                        *self,
                        ((#[trigger] removals@[x]).0@, removals@[x].1@, removals@[x].2@),
                    ),
                self.lobbies@ == crate::strmap::entries_map(entries),
                crate::strmap::distinct_keys(entries),
            decreases n - i,
        {
            let (code, lobby) = self.lobbies.entry_at(i);
            proof {
                crate::strmap::lemma_entries_map(entries);
                assert(self.lobbies@[code@] == *lobby);
            }
            proof {
                let e = entries.subrange(0, i + 1);
                assert(e.drop_last() =~= entries.subrange(0, i as int));
                assert(e.last() == entries[i as int]);
            }
            if has_timed_out(lobby.host_disconnected_at, now) {
                close_codes.push(code.clone());
                assert(close_codes@.map_values(|c: String| c@) =~= expired_hosts(entries.subrange(0, i + 1), now));
            } else {
                let ghost before = removals@.map_values(|r: (String, String, String)| (r.0@, r.1@, r.2@));
                proof {
                    assert(self.lobbies@.contains_key(entries[i as int].0@));
                }
                let ghost members = lobby.players.entries();
                lobby.players.reveal_entries();
                let m = lobby.players.entry_count();
                let mut j: usize = 0;
                while j < m
                    invariant
                        m == members.len(),
                        members == lobby.players.entries(),
                        j <= m,
                        removals@.map_values(|r: (String, String, String)| (r.0@, r.1@, r.2@)) == before
                            + expired_members(code@, members.subrange(0, j as int), now),
                        forall|x: int|
                            0 <= x < removals@.len() ==> names_member(
                                *self,
                                ((#[trigger] removals@[x]).0@, removals@[x].1@, removals@[x].2@),
                            ),
                        self.lobbies@.contains_key(code@),
                        self.lobbies@[code@] == *lobby,
                        forall|y: int|
                            0 <= y < members.len() ==> #[trigger] lobby.players@.contains_key(members[y].0@)
                                && lobby.players@[members[y].0@] == members[y].1,
                    decreases m - j,
                {
                    let (player_id, player) = lobby.players.entry_at(j);
                    proof {
                        let e = members.subrange(0, j + 1);
                        assert(e.drop_last() =~= members.subrange(0, j as int));
                    }
                    let ghost prev = removals@;
                    if has_timed_out(player.disconnected_at, now) {
                        removals.push((code.clone(), player_id.clone(), player.session.clone()));
                        proof {
                            assert(lobby.players@.contains_key(members[j as int].0@));
                            assert forall|x: int| 0 <= x < removals@.len() implies names_member(
                                *self,
                                ((#[trigger] removals@[x]).0@, removals@[x].1@, removals@[x].2@),
                            ) by {
                                if x < prev.len() {
                                    assert(removals@[x] == prev[x]);
                                }
                            }
                        }
                        assert(removals@.map_values(|r: (String, String, String)| (r.0@, r.1@, r.2@)) =~= prev.map_values(
                            |r: (String, String, String)| (r.0@, r.1@, r.2@),
                        ).push((code@, player_id@, player.session@)));
                    }
                    j = j + 1;
                }
                assert(members.subrange(0, m as int) =~= members);
                assert(removals@.map_values(|r: (String, String, String)| (r.0@, r.1@, r.2@)) =~= expired_players(
                    entries.subrange(0, i + 1),
                    now,
                ));
            }
            i = i + 1;
        }
        assert(entries.subrange(0, n as int) =~= entries);
        proof {
            let g = removals@.map_values(|r: (String, String, String)| (r.0@, r.1@, r.2@));
            assert forall|j: int| 0 <= j < g.len() implies names_member(pre, #[trigger] g[j]) by {
                assert(names_member(pre, (removals@[j].0@, removals@[j].1@, removals@[j].2@)));
            }
        }
        let ghost closes = close_codes@.map_values(|c: String| c@);
        let ghost gone = removals@.map_values(|r: (String, String, String)| (r.0@, r.1@, r.2@));
        let ghost c = closes.len() as int;
        let ghost mut states: Seq<AppState> = seq![pre];
        let ghost mut outs: Seq<Seq<OutgoingModel>> = seq![];
        let mut out: Vec<Outgoing> = Vec::new();
        let reason = owned("lobby closed: host timeout");
        let nc = close_codes.len();
        let mut a: usize = 0;
        while a < nc
            invariant
                nc == close_codes@.len(),
                closes == close_codes@.map_values(|c: String| c@),
                reason@ == "lobby closed: host timeout"@,
                a <= nc,
                states.len() == a + 1,
                outs.len() == a,
                states[0] == pre,
                states[a as int] == *self,
                self.well_formed(),
                forall|x: int|
                    #![trigger outs[x]]
                    0 <= x < a ==> AppState::closes_lobby(
                        states[x],
                        states[x + 1],
                        closes[x],
                        "lobby closed: host timeout"@,
                        outs[x],
                    ),
                outgoing_model(out@) == outs.flatten(),
            decreases nc - a,
        {
            let mut step = self.close_lobby(&close_codes[a], &reason);
            let ghost step_model = outgoing_model(step@);
            let ghost prev_outs = outs;
            proof {
                states = states.push(*self);
                outs = outs.push(step_model);
                prev_outs.lemma_flatten_push(step_model);
            }
            let ghost before = outgoing_model(out@);
            out.append(&mut step);
            assert(outgoing_model(out@) =~= before + step_model);
            a = a + 1;
        }
        let nr = removals.len();
        let mut b: usize = 0;
        while b < nr
            invariant
                nr == removals@.len(),
                gone == removals@.map_values(|r: (String, String, String)| (r.0@, r.1@, r.2@)),
                closes.len() == c,
                b <= nr,
                states.len() == c + b + 1,
                outs.len() == c + b,
                states[0] == pre,
                states[c + b] == *self,
                self.well_formed(),
                forall|x: int|
                    #![trigger outs[x]]
                    0 <= x < c ==> AppState::closes_lobby(
                        states[x],
                        states[x + 1],
                        closes[x],
                        "lobby closed: host timeout"@,
                        outs[x],
                    ),
                forall|x: int|
                    #![trigger outs[x]]
                    c <= x < c + b ==> AppState::removes_player(
                        states[x],
                        states[x + 1],
                        gone[x - c].0,
                        gone[x - c].1,
                        gone[x - c].2,
                        outs[x],
                    ),
                outgoing_model(out@) == outs.flatten(),
            decreases nr - b,
        {
            let removal = &removals[b];
            let mut step = self.remove_player_session(&removal.0, &removal.1, &removal.2);
            let ghost step_model = outgoing_model(step@);
            let ghost prev_outs = outs;
            let ghost prev_states = states;
            proof {
                states = states.push(*self);
                outs = outs.push(step_model);
                prev_outs.lemma_flatten_push(step_model);
                assert forall|x: int| #![trigger outs[x]] 0 <= x < c implies AppState::closes_lobby(
                    states[x],
                    states[x + 1],
                    closes[x],
                    "lobby closed: host timeout"@,
                    outs[x],
                ) by {
                    assert(outs[x] == prev_outs[x]);
                    assert(states[x] == prev_states[x]);
                    assert(states[x + 1] == prev_states[x + 1]);
                }
                assert forall|x: int| #![trigger outs[x]] c <= x < c + b + 1 implies AppState::removes_player(
                    states[x],
                    states[x + 1],
                    gone[x - c].0,
                    gone[x - c].1,
                    gone[x - c].2,
                    outs[x],
                ) by {
                    if x < c + b {
                        assert(outs[x] == prev_outs[x]);
                        assert(states[x] == prev_states[x]);
                        assert(states[x + 1] == prev_states[x + 1]);
                    }
                }
            }
            let ghost before = outgoing_model(out@);
            out.append(&mut step);
            assert(outgoing_model(out@) =~= before + step_model);
            b = b + 1;
        }
        proof {
            let k = c + gone.len();
            assert(states.len() == k + 1);
            assert(AppState::sweeps(pre, *self, now, outgoing_model(out@))) by {
                assert(closes == expired_hosts(pre.lobbies.entries(), now));
                assert(gone == expired_players(pre.lobbies.entries(), now));
            }
        }
        out
    }

    /// What a request `msg` from `connection`, which is `role` so far, does; `check` is the
    /// verdict on the floating-point parameters of a throw.
    pub open spec fn handles(
        pre: AppState,
        post: AppState,
        connection: u64,
        role: Option<ConnectionRole>,
        role_after: Option<ConnectionRole>,
        msg: ClientMessage,
        check: ThrowCheck,
        out: Seq<OutgoingModel>,
    ) -> bool {
        match msg {
            ClientMessage::CreateLobby => exists|code: Seq<char>, session: Seq<char>|
                {
                    &&& AppState::creates_lobby(pre, post, connection, code, session, out)
                    &&& role_model(role_after) == Some((true, code, session))
                },
            ClientMessage::JoinLobby { code, username } => exists|
                joined: Option<(Seq<char>, Seq<char>)>,
                out1: Seq<OutgoingModel>,
            |
                {
                    &&& AppState::joins(pre, post, connection, code@, username@, joined, out1)
                    &&& match joined {
                        Some((_, session)) => out == out1 && role_model(role_after) == Some(
                            (false, code@, session),
                        ),
                        None => out == refuse(connection, "lobby not found"@) && role_after == role,
                    }
                },
            ClientMessage::ReconnectHost { code, host_session } => exists|ok: bool, out1: Seq<OutgoingModel>|
                {
                    &&& AppState::reconnects_host(pre, post, connection, code@, host_session@, ok, out1)
                    &&& if ok {
                        out == out1 && role_model(role_after) == Some((true, code@, host_session@))
                    } else {
                        out == refuse(connection, "host reconnect failed"@) && role_after == role
                    }
                },
            ClientMessage::ReconnectPlayer { code, player_session } => exists|
                ok: bool,
                out1: Seq<OutgoingModel>,
            |
                {
                    &&& AppState::reconnects_player(pre, post, connection, code@, player_session@, ok, out1)
                    &&& if ok {
                        out == out1 && role_model(role_after) == Some((false, code@, player_session@))
                    } else {
                        out == refuse(connection, "player reconnect failed"@) && role_after == role
                    }
                },
            ClientMessage::Leave => match role {
                Some(r) => AppState::leaves(pre, post, r, out) && role_after is None,
                None => post.same_as(pre) && out == Seq::<OutgoingModel>::empty() && role_after is None,
            },
            ClientMessage::StartGame => {
                &&& role_after == role
                &&& match role {
                    Some(ConnectionRole::Host { code, .. }) => exists|
                        started: Option<(Seq<char>, crate::protocol::ScoreboardModel)>,
                    |
                        {
                            &&& AppState::starts_game(pre, post, code@, started)
                            &&& match started {
                                Some((id, board)) => out == broadcast_to(
                                    post.lobbies@,
                                    code@,
                                    ServerMessageModel::GameStarted { code: code@, current_player_id: id },
                                ) + broadcast_to(
                                    post.lobbies@,
                                    code@,
                                    ServerMessageModel::ScoreboardUpdated { scoreboard: board },
                                ),
                                None => out == refuse(connection, "need at least one connected player to start"@),
                            }
                        },
                    _ => post.same_as(pre) && out == refuse(connection, "only host can start game"@),
                }
            },
            ClientMessage::ThrowEvent { force_bits, direction_x_bits, direction_z_bits } => {
                &&& role_after == role
                &&& match role {
                    Some(ConnectionRole::Player { code, session }) => exists|r: Result<Seq<char>, Seq<char>>|
                        {
                            &&& AppState::relays_throw(pre, post, code@, session@, check, r)
                            &&& match r {
                                Ok(id) => out == broadcast_to(
                                    post.lobbies@,
                                    code@,
                                    ServerMessageModel::ThrowEvent {
                                        player_id: id,
                                        force_bits,
                                        direction_x_bits,
                                        direction_z_bits,
                                    },
                                ),
                                Err(reason) => out == refuse(connection, reason),
                            }
                        },
                    _ => post.same_as(pre) && out == refuse(connection, "only players can throw"@),
                }
            },
            ClientMessage::ReportThrowResult { knocked_pins, standing_pins } => {
                &&& role_after == role
                &&& match role {
                    Some(ConnectionRole::Host { code, .. }) => exists|
                        r: Result<crate::protocol::ScoreboardModel, Seq<char>>,
                    |
                        {
                            &&& AppState::applies_result(pre, post, code@, knocked_pins, standing_pins, r)
                            &&& match r {
                                Ok(board) => out == broadcast_to(
                                    post.lobbies@,
                                    code@,
                                    ServerMessageModel::ScoreboardUpdated { scoreboard: board },
                                ),
                                Err(reason) => out == refuse(connection, reason),
                            }
                        },
                    _ => post.same_as(pre) && out == refuse(connection, "only host can report throw results"@),
                }
            },
        }
    }

    /// Handles request `msg` from `connection`, which is `role` so far (and afterwards what
    /// `role` holds then). `check` is the verdict on the floating-point parameters of a
    /// throw; other requests ignore it.
    pub fn handle_client_message(
        &mut self,
        connection: u64,
        role: &mut Option<ConnectionRole>,
        msg: ClientMessage,
        check: ThrowCheck,
    ) -> (out: Vec<Outgoing>)
        requires
            old(self).well_formed(),
            msg is CreateLobby ==> old(self).lobbies.entries().len() < LOBBY_CODE_SPACE,
        ensures
            AppState::handles(*old(self), *final(self), connection, *old(role), *final(role), msg, check, outgoing_model(out@)),
            final(self).well_formed(),
    {
        let ghost pre = *self;
        match msg {
            ClientMessage::CreateLobby => {
                let (code, session, out) = self.create_lobby(connection);
                *role = Some(ConnectionRole::Host { code, session });
                out
            },
            ClientMessage::JoinLobby { code, username } => {
                let (joined, out) = self.join_lobby(connection, &code, username);
                match joined {
                    Some((_, session)) => {
                        *role = Some(ConnectionRole::Player { code, session });
                        out
                    },
                    None => {
                        let mut r: Vec<Outgoing> = Vec::new();
                        r.push(send_one(connection, ServerMessage::Error { message: owned("lobby not found") }));
                        assert(outgoing_model(r@) =~= refuse(connection, "lobby not found"@));
                        r
                    },
                }
            },
            ClientMessage::ReconnectHost { code, host_session } => {
                let (ok, out) = self.reconnect_host(connection, &code, &host_session);
                if ok {
                    *role = Some(ConnectionRole::Host { code, session: host_session });
                    out
                } else {
                    let mut r: Vec<Outgoing> = Vec::new();
                    r.push(send_one(connection, ServerMessage::Error { message: owned("host reconnect failed") }));
                    assert(outgoing_model(r@) =~= refuse(connection, "host reconnect failed"@));
                    r
                }
            },
            ClientMessage::ReconnectPlayer { code, player_session } => {
                let (ok, out) = self.reconnect_player(connection, &code, &player_session);
                if ok {
                    *role = Some(ConnectionRole::Player { code, session: player_session });
                    out
                } else {
                    let mut r: Vec<Outgoing> = Vec::new();
                    r.push(send_one(connection, ServerMessage::Error { message: owned("player reconnect failed") }));
                    assert(outgoing_model(r@) =~= refuse(connection, "player reconnect failed"@));
                    r
                }
            },
            ClientMessage::Leave => {
                let mut current: Option<ConnectionRole> = None;
                std::mem::swap(&mut current, role);
                match current {
                    Some(r) => self.leave_connection(&r),
                    None => {
                        let empty: Vec<Outgoing> = Vec::new();
                        assert(outgoing_model(empty@) =~= Seq::<OutgoingModel>::empty());
                        empty
                    },
                }
            },
            ClientMessage::StartGame => {
                let host_code = match role {
                    Some(ConnectionRole::Host { code, .. }) => Some(code.clone()),
                    _ => None,
                };
                match host_code {
                    Some(code) => match self.start_game(&code) {
                        Some((current_player_id, scoreboard)) => {
                            let mut out = self.broadcast_lobby(
                                &code,
                                ServerMessage::GameStarted { code: code.clone(), current_player_id },
                            );
                            let ghost first = outgoing_model(out@);
                            let mut second = self.broadcast_lobby(&code, ServerMessage::ScoreboardUpdated { scoreboard });
                            let ghost second_model = outgoing_model(second@);
                            out.append(&mut second);
                            assert(outgoing_model(out@) =~= first + second_model);
                            out
                        },
                        None => {
                            let mut r: Vec<Outgoing> = Vec::new();
                            r.push(
                                send_one(
                                    connection,
                                    ServerMessage::Error { message: owned("need at least one connected player to start") },
                                ),
                            );
                            assert(outgoing_model(r@) =~= refuse(connection, "need at least one connected player to start"@));
                            r
                        },
                    },
                    None => {
                        let mut r: Vec<Outgoing> = Vec::new();
                        r.push(send_one(connection, ServerMessage::Error { message: owned("only host can start game") }));
                        assert(outgoing_model(r@) =~= refuse(connection, "only host can start game"@));
                        r
                    },
                }
            },
            ClientMessage::ThrowEvent { force_bits, direction_x_bits, direction_z_bits } => {
                let player = match role {
                    Some(ConnectionRole::Player { code, session }) => Some((code.clone(), session.clone())),
                    _ => None,
                };
                match player {
                    Some((code, session)) => match self.relay_throw_event(&code, &session, check) {
                        Ok(player_id) => self.broadcast_lobby(
                            &code,
                            ServerMessage::ThrowEvent { player_id, force_bits, direction_x_bits, direction_z_bits },
                        ),
                        Err(message) => {
                            let ghost text = message@;
                            let mut r: Vec<Outgoing> = Vec::new();
                            r.push(send_one(connection, ServerMessage::Error { message }));
                            assert(outgoing_model(r@) =~= refuse(connection, text));
                            r
                        },
                    },
                    None => {
                        let mut r: Vec<Outgoing> = Vec::new();
                        r.push(send_one(connection, ServerMessage::Error { message: owned("only players can throw") }));
                        assert(outgoing_model(r@) =~= refuse(connection, "only players can throw"@));
                        r
                    },
                }
            },
            ClientMessage::ReportThrowResult { knocked_pins, standing_pins } => {
                let host_code = match role {
                    Some(ConnectionRole::Host { code, .. }) => Some(code.clone()),
                    _ => None,
                };
                match host_code {
                    Some(code) => match self.apply_throw_result(&code, knocked_pins, standing_pins) {
                        Ok(scoreboard) => self.broadcast_lobby(&code, ServerMessage::ScoreboardUpdated { scoreboard }),
                        Err(message) => {
                            let ghost text = message@;
                            let mut r: Vec<Outgoing> = Vec::new();
                            r.push(send_one(connection, ServerMessage::Error { message }));
                            assert(outgoing_model(r@) =~= refuse(connection, text));
                            r
                        },
                    },
                    None => {
                        let mut r: Vec<Outgoing> = Vec::new();
                        r.push(
                            send_one(connection, ServerMessage::Error { message: owned("only host can report throw results") }),
                        );
                        assert(outgoing_model(r@) =~= refuse(connection, "only host can report throw results"@));
                        r
                    },
                }
            },
        }
    }
}

} // verus!
