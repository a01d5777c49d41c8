use vstd::prelude::*;

use crate::board::{all_players_finished, build_scoreboard, next_connected_turn_index, scoreboard_model};
use crate::laws::{active_frame_is_first_open, roll_keeps_frames_shaped};
use crate::lobby::lemma_well_formed_totals_fit;
use crate::protocol::ScoreboardState;
use crate::scoring::{
    FrameRecord, PlayerBowlingState, active_frame, active_frame_index, continuing_turn_state, frames_shaped,
    next_roll_state, with_roll,
};
use crate::state::{
    AppState, BowlingState, Lobby, ThrowCheck, bowled_frames, everyone_finished, game_well_formed, next_turn,
};
use crate::strmap::StrMap;
use crate::text::owned;

verus! {

/// Why a throw by the player of session `session` in lobby `code` is refused, if it is.
pub open spec fn throw_refusal(pre: AppState, code: Seq<char>, session: Seq<char>, check: ThrowCheck) -> Option<
    Seq<char>,
> {
    let lobby = pre.lobbies@[code];
    if !pre.player_sessions@.contains_key(session) {
        Some("player session not found"@)
    } else if pre.player_sessions@[session].code@ != code {
        Some("player is not in this lobby"@)
    } else if !pre.lobbies@.contains_key(code) {
        Some("lobby not found"@)
    } else if !lobby.game_in_progress {
        Some("game has not started"@)
    } else if lobby.ball_in_play {
        Some("throw already in progress"@)
    } else if lobby.current_turn is None {
        Some("no active player turn"@)
    } else if lobby.current_turn->0 >= lobby.player_order@.len() {
        Some("active player not found"@)
    } else if lobby.player_order@[lobby.current_turn->0 as int]@ != pre.player_sessions@[session].player_id@ {
        Some("not your turn"@)
    } else {
        match check {
            ThrowCheck::ForceOutOfRange => Some("throw force must be between 0 and 1"@),
            ThrowCheck::DirectionNotFinite => Some("throw direction must be finite"@),
            ThrowCheck::DirectionNotNormalized => Some("throw direction must be normalized"@),
            ThrowCheck::Valid => None,
        }
    }
}

/// Why a throw result reported by the host of `lobby` is refused, if it is.
pub open spec fn result_refusal(lobby: Lobby, knocked_pins: u8, standing_pins: u8) -> Option<Seq<char>> {
    if !lobby.game_in_progress {
        Some("game has not started"@)
    } else if !lobby.ball_in_play {
        Some("no throw in progress"@)
    } else if lobby.bowling.game_over {
        Some("game is already over"@)
    } else if lobby.current_turn is None {
        Some("no active player turn"@)
    } else if lobby.current_turn->0 >= lobby.player_order@.len() {
        Some("active player not found"@)
    } else if knocked_pins > lobby.bowling.pins_remaining {
        Some("knocked pins exceed remaining pins"@)
    } else if standing_pins + knocked_pins != lobby.bowling.pins_remaining {
        Some("standing pins do not match throw result"@)
    } else if active_frame(bowled_frames(lobby, lobby.player_order@[lobby.current_turn->0 as int]@)) >= 10 {
        Some("player has already finished the game"@)
    } else {
        None
    }
}

/// The turn, roll, standing pins and game-over flag after a roll that left the rolls of
/// the bowled frame as `rolls`, in a lobby whose records are already those of `after`:
/// the same turn goes on while the frame is open; otherwise the next player who may play
/// takes over with a full rack; with nobody left, there is no turn and the game is over
/// once everyone has finished.
pub open spec fn turn_after_roll(lobby: Lobby, after: Lobby, frame_index: int, rolls: Seq<u8>) -> (
    Option<usize>,
    u8,
    u8,
    bool,
) {
    let moved = match next_roll_state(frame_index, rolls) {
        Some((roll, pins)) => (lobby.current_turn, roll, pins, lobby.bowling.game_over),
        None => match next_turn(after, lobby.current_turn) {
            Some(t) => (Some(t as usize), 1u8, 10u8, lobby.bowling.game_over),
            None => (None::<usize>, 0u8, 0u8, everyone_finished(after)),
        },
    };
    if everyone_finished(after) {
        (None::<usize>, 0u8, 0u8, true)
    } else {
        moved
    }
}

impl AppState {
    // -----------------------------------------------------------------------
    // Starting a game
    // -----------------------------------------------------------------------

    /// What starting the game of lobby `code` does: it fails (`None`) without a lobby or
    /// without a connected player who may play; otherwise the first such player (from the
    /// front of the order) is up with a full rack on roll one, every member starts with no
    /// frames, and the result is that player's id and the scoreboard.
    pub open spec fn starts_game(
        pre: AppState,
        post: AppState,
        code: Seq<char>,
        started: Option<(Seq<char>, crate::protocol::ScoreboardModel)>,
    ) -> bool {
        let lobby = pre.lobbies@[code];
        if !pre.lobbies@.contains_key(code) || next_turn(lobby, None) is None {
            started is None && post.same_as(pre)
        } else {
            let t = next_turn(lobby, None)->0;
            let after = post.lobbies@[code];
            &&& post.lobbies@ == pre.lobbies@.insert(code, after)
            &&& after == Lobby {
                game_in_progress: true,
                ball_in_play: false,
                current_turn: Some(t as usize),
                bowling: BowlingState {
                    players: after.bowling.players,
                    pins_remaining: 10,
                    current_roll: 1,
                    game_over: false,
                },
                ..lobby
            }
            &&& forall|id: Seq<char>|
                #[trigger] after.bowling.players@.contains_key(id) <==> exists|i: int|
                    0 <= i < lobby.player_order@.len() && lobby.player_order@[i]@ == id
            &&& forall|id: Seq<char>|
                #[trigger] after.bowling.players@.contains_key(id) ==> after.bowling.players@[id]@ == Seq::<
                    Seq<u8>,
                >::empty()
            &&& post.player_sessions@ == pre.player_sessions@
            &&& post.host_sessions@ == pre.host_sessions@
            &&& started == Some((lobby.player_order@[t]@, scoreboard_model(after)))
        }
    }

    /// Starts the game of lobby `code`; returns the id of the first player up and the
    /// scoreboard.
    pub fn start_game(&mut self, code: &String) -> (r: Option<(String, ScoreboardState)>)
        requires
            old(self).well_formed(),
        ensures
            AppState::starts_game(
                *old(self),
                *final(self),
                code@,
                match r {
                    Some((id, board)) => Some((id@, board@)),
                    None => None,
                },
            ),
            final(self).well_formed(),
    {
        let ghost pre = *self;
        let mut lobby = match self.lobbies.remove(code) {
            Some(l) => l,
            None => {
                assert(self.lobbies@ =~= pre.lobbies@);
                return None;
            },
        };
        let ghost before = lobby;
        let turn_index = match next_connected_turn_index(&lobby, None) {
            Some(t) => t,
            None => {
                self.lobbies.insert(code.clone(), lobby);
                assert(self.lobbies@ =~= pre.lobbies@);
                return None;
            },
        };
        lobby.game_in_progress = true;
        lobby.ball_in_play = false;
        lobby.current_turn = Some(turn_index);
        let mut records: StrMap<PlayerBowlingState> = StrMap::new();
        let n = lobby.player_order.len();
        let mut i: usize = 0;
        while i < n
            invariant
                n == lobby.player_order@.len(),
                i <= n,
                forall|id: Seq<char>|
                    #[trigger] records@.contains_key(id) <==> exists|j: int|
                        0 <= j < i && lobby.player_order@[j]@ == id,
                forall|id: Seq<char>|
                    #[trigger] records@.contains_key(id) ==> records@[id]@ == Seq::<Seq<u8>>::empty(),
            decreases n - i,
        {
            let fresh = PlayerBowlingState { frames: Vec::new() };
            assert(fresh@ =~= Seq::<Seq<u8>>::empty());
            records.insert(lobby.player_order[i].clone(), fresh);
            proof {
                assert forall|id: Seq<char>| #[trigger] records@.contains_key(id) <==> exists|j: int|
                    0 <= j < i + 1 && lobby.player_order@[j]@ == id by {
                    if records@.contains_key(id) && id != lobby.player_order@[i as int]@ {
                        let j = choose|j: int| 0 <= j < i && lobby.player_order@[j]@ == id;
                        assert(0 <= j < i + 1);
                    }
                    if exists|j: int| 0 <= j < i + 1 && lobby.player_order@[j]@ == id {
                        let j = choose|j: int| 0 <= j < i + 1 && lobby.player_order@[j]@ == id;
                        if j < i {
                            assert(exists|k: int| 0 <= k < i && lobby.player_order@[k]@ == id);
                        }
                    }
                }
            }
            i = i + 1;
        }
        lobby.bowling = BowlingState { players: records, pins_remaining: 10, current_roll: 1, game_over: false };
        let current_player_id = lobby.player_order[turn_index].clone();
        proof {
            assert(game_well_formed(lobby)) by {
                assert forall|id: Seq<char>| #[trigger] lobby.bowling.players@.contains_key(id) implies frames_shaped(
                    lobby.bowling.players@[id]@,
                ) by {
                    assert(lobby.bowling.players@[id]@ =~= Seq::<Seq<u8>>::empty());
                }
            }
            lemma_well_formed_totals_fit(lobby);
        }
        let scoreboard = build_scoreboard(&lobby);
        self.lobbies.insert(code.clone(), lobby);
        assert(self.lobbies@ =~= pre.lobbies@.insert(code@, lobby));
        Some((current_player_id, scoreboard))
    }

    // -----------------------------------------------------------------------
    // Throwing
    // -----------------------------------------------------------------------

    /// What a throw by the player of session `session` in lobby `code` does: if it is not
    /// refused (see `throw_refusal`), the ball is in play and the result is the player's
    /// id; a refused throw changes nothing.
    pub open spec fn relays_throw(
        pre: AppState,
        post: AppState,
        code: Seq<char>,
        session: Seq<char>,
        check: ThrowCheck,
        r: Result<Seq<char>, Seq<char>>,
    ) -> bool {
        match throw_refusal(pre, code, session, check) {
            Some(reason) => r == Err::<Seq<char>, Seq<char>>(reason) && post.same_as(pre),
            None => {
                &&& r == Ok::<Seq<char>, Seq<char>>(pre.player_sessions@[session].player_id@)
                &&& post.lobbies@ == pre.lobbies@.insert(code, Lobby { ball_in_play: true, ..pre.lobbies@[code] })
                &&& post.player_sessions@ == pre.player_sessions@
                &&& post.host_sessions@ == pre.host_sessions@
            },
        }
    }

    /// A player throws: checks that it is that player's turn in a game in progress with
    /// no ball rolling and that the throw parameters passed `check`, then puts the ball in
    /// play.
    pub fn relay_throw_event(&mut self, code: &String, session: &String, check: ThrowCheck) -> (r: Result<
        String,
        String,
    >)
        requires
            old(self).well_formed(),
        ensures
            AppState::relays_throw(
                *old(self),
                *final(self),
                code@,
                session@,
                check,
                match r {
                    Ok(id) => Ok(id@),
                    Err(m) => Err(m@),
                },
            ),
            final(self).well_formed(),
    {
        let ghost pre = *self;
        let player_id = match self.player_sessions.get(session) {
            Some(sref) => {
                if sref.code != *code {
                    return Err(owned("player is not in this lobby"));
                }
                sref.player_id.clone()
            },
            None => {
                return Err(owned("player session not found"));
            },
        };
        let mut lobby = match self.lobbies.remove(code) {
            Some(l) => l,
            None => {
                assert(self.lobbies@ =~= pre.lobbies@);
                return Err(owned("lobby not found"));
            },
        };
        let refusal: Option<String> = if !lobby.game_in_progress {
            Some(owned("game has not started"))
        } else if lobby.ball_in_play {
            Some(owned("throw already in progress"))
        } else {
            match lobby.current_turn {
                None => Some(owned("no active player turn")),
                Some(t) => if t >= lobby.player_order.len() {
                    Some(owned("active player not found"))
                } else if lobby.player_order[t] != player_id {
                    Some(owned("not your turn"))
                } else {
                    match check {
                        ThrowCheck::ForceOutOfRange => Some(owned("throw force must be between 0 and 1")),
                        ThrowCheck::DirectionNotFinite => Some(owned("throw direction must be finite")),
                        ThrowCheck::DirectionNotNormalized => Some(owned("throw direction must be normalized")),
                        ThrowCheck::Valid => None,
                    }
                },
            }
        };
        match refusal {
            Some(reason) => {
                self.lobbies.insert(code.clone(), lobby);
                assert(self.lobbies@ =~= pre.lobbies@);
                Err(reason)
            },
            None => {
                lobby.ball_in_play = true;
                proof {
                    assert(game_well_formed(lobby));
                }
                self.lobbies.insert(code.clone(), lobby);
                assert(self.lobbies@ =~= pre.lobbies@.insert(code@, lobby));
                Ok(player_id)
            },
        }
    }

    /// What the host reporting that a throw knocked `knocked_pins` and left
    /// `standing_pins` does in lobby `code`. Without the lobby, or when refused (see
    /// `result_refusal`), nothing changes. Otherwise the roll is added to the active frame
    /// of the player up, the ball is no longer in play, the turn moves on as
    /// `turn_after_roll` says, and the result is the new scoreboard.
    pub open spec fn applies_result(
        pre: AppState,
        post: AppState,
        code: Seq<char>,
        knocked_pins: u8,
        standing_pins: u8,
        r: Result<crate::protocol::ScoreboardModel, Seq<char>>,
    ) -> bool {
        let lobby = pre.lobbies@[code];
        if !pre.lobbies@.contains_key(code) {
            r == Err::<crate::protocol::ScoreboardModel, Seq<char>>("lobby not found"@) && post.same_as(pre)
        } else if result_refusal(lobby, knocked_pins, standing_pins) is Some {
            r == Err::<crate::protocol::ScoreboardModel, Seq<char>>(
                result_refusal(lobby, knocked_pins, standing_pins)->0,
            ) && post.same_as(pre)
        } else {
            let id = lobby.player_order@[lobby.current_turn->0 as int]@;
            let frames = bowled_frames(lobby, id);
            let a = active_frame(frames);
            let rolled = with_roll(frames, knocked_pins);
            let after = post.lobbies@[code];
            let next = turn_after_roll(lobby, after, a, rolled[a]);
            &&& post.lobbies@ == pre.lobbies@.insert(code, after)
            &&& after.bowling.players@ == lobby.bowling.players@.insert(id, after.bowling.players@[id])
            &&& after.bowling.players@[id]@ == rolled
            &&& after == Lobby {
                ball_in_play: false,
                current_turn: next.0,
                bowling: BowlingState {
                    players: after.bowling.players,
                    current_roll: next.1,
                    pins_remaining: next.2,
                    game_over: next.3,
                },
                ..lobby
            }
            &&& post.player_sessions@ == pre.player_sessions@
            &&& post.host_sessions@ == pre.host_sessions@
            &&& r == Ok::<crate::protocol::ScoreboardModel, Seq<char>>(scoreboard_model(after))
        }
    }

    /// The host reports what a throw did in lobby `code`.
    pub fn apply_throw_result(&mut self, code: &String, knocked_pins: u8, standing_pins: u8) -> (r: Result<
        ScoreboardState,
        String,
    >)
        requires
            old(self).well_formed(),
        ensures
            AppState::applies_result(
                *old(self),
                *final(self),
                code@,
                knocked_pins,
                standing_pins,
                match r {
                    Ok(board) => Ok(board@),
                    Err(m) => Err(m@),
                },
            ),
            final(self).well_formed(),
    {
        let ghost pre = *self;
        let mut lobby = match self.lobbies.remove(code) {
            Some(l) => l,
            None => {
                assert(self.lobbies@ =~= pre.lobbies@);
                return Err(owned("lobby not found"));
            },
        };
        let ghost before = lobby;
        proof {
            assert(game_well_formed(lobby));
        }
        let refusal: Option<String> = if !lobby.game_in_progress {
            Some(owned("game has not started"))
        } else if !lobby.ball_in_play {
            Some(owned("no throw in progress"))
        } else if lobby.bowling.game_over {
            Some(owned("game is already over"))
        } else {
            match lobby.current_turn {
                None => Some(owned("no active player turn")),
                Some(t) => if t >= lobby.player_order.len() {
                    Some(owned("active player not found"))
                } else if knocked_pins > lobby.bowling.pins_remaining {
                    Some(owned("knocked pins exceed remaining pins"))
                } else if standing_pins as u16 + knocked_pins as u16 != lobby.bowling.pins_remaining as u16 {
                    Some(owned("standing pins do not match throw result"))
                } else {
                    match lobby.bowling.players.get(&lobby.player_order[t]) {
                        Some(state) => if active_frame_index(state) >= 10 {
                            Some(owned("player has already finished the game"))
                        } else {
                            None
                        },
                        None => {
                            assert(bowled_frames(lobby, lobby.player_order@[t as int]@) =~= Seq::<Seq<u8>>::empty());
                            None
                        },
                    }
                },
            }
        };
        match refusal {
            Some(reason) => {
                self.lobbies.insert(code.clone(), lobby);
                assert(self.lobbies@ =~= pre.lobbies@);
                return Err(reason);
            },
            None => {},
        }
        let t = lobby.current_turn.unwrap();
        let player_id = lobby.player_order[t].clone();
        let ghost frames = bowled_frames(lobby, player_id@);
        let mut state = match lobby.bowling.players.remove(&player_id) {
            Some(s) => s,
            None => {
                let s = PlayerBowlingState { frames: Vec::new() };
                assert(s@ =~= Seq::<Seq<u8>>::empty());
                s
            },
        };
        assert(state@ == frames);
        proof {
            assert(frames_shaped(frames)) by {
                if !before.bowling.players@.contains_key(player_id@) {
                    assert(frames =~= Seq::<Seq<u8>>::empty());
                }
            }
            active_frame_is_first_open(frames);
        }
        let frame_index = active_frame_index(&state);
        if state.frames.len() == frame_index {
            state.frames.push(FrameRecord { rolls: Vec::new() });
        }
        let mut frame = state.frames.remove(frame_index);
        frame.rolls.push(knocked_pins);
        let ghost rolls = frame.rolls@;
        proof {
            roll_keeps_frames_shaped(frames, knocked_pins);
            assert(with_roll(frames, knocked_pins)[frame_index as int] =~= rolls);
            assert(crate::scoring::frame_shaped(frame_index as int, rolls));
        }
        let continuing = continuing_turn_state(frame_index, frame.rolls.as_slice());
        state.frames.insert(frame_index, frame);
        proof {
            assert(state@ =~= with_roll(frames, knocked_pins));
        }
        lobby.bowling.players.insert(player_id.clone(), state);
        lobby.ball_in_play = false;
        let ghost recorded = lobby;
        match continuing {
            Some((next_roll, next_pins_remaining)) => {
                lobby.bowling.current_roll = next_roll;
                lobby.bowling.pins_remaining = next_pins_remaining;
            },
            None => {
                match next_connected_turn_index(&lobby, lobby.current_turn) {
                    Some(next_turn_index) => {
                        lobby.current_turn = Some(next_turn_index);
                        lobby.bowling.current_roll = 1;
                        lobby.bowling.pins_remaining = 10;
                    },
                    None => {
                        lobby.current_turn = None;
                        lobby.bowling.current_roll = 0;
                        lobby.bowling.pins_remaining = 0;
                        lobby.bowling.game_over = all_players_finished(&lobby);
                    },
                }
            },
        }
        if all_players_finished(&lobby) {
            lobby.current_turn = None;
            lobby.bowling.current_roll = 0;
            lobby.bowling.pins_remaining = 0;
            lobby.bowling.game_over = true;
        }
        proof {
            assert(everyone_finished(lobby) == everyone_finished(recorded));
            crate::state::lemma_next_turn_depends_on_players(lobby, recorded, before.current_turn);
            assert(game_well_formed(lobby)) by {
                assert forall|id: Seq<char>| #[trigger] lobby.bowling.players@.contains_key(id) implies frames_shaped(
                    lobby.bowling.players@[id]@,
                ) by {
                    if id != player_id@ {
                        assert(before.bowling.players@.contains_key(id));
                    }
                }
                assert(rolls.len() >= 1);
            }
            lemma_well_formed_totals_fit(lobby);
        }
        let scoreboard = build_scoreboard(&lobby);
        self.lobbies.insert(code.clone(), lobby);
        assert(self.lobbies@ =~= pre.lobbies@.insert(code@, lobby));
        proof {
            let after = lobby;
            let a = frame_index as int;
            let rolled = with_roll(frames, knocked_pins);
            assert(result_refusal(before, knocked_pins, standing_pins) is None);
            assert(player_id@ == before.player_order@[before.current_turn->0 as int]@);
            assert(frames == bowled_frames(before, player_id@));
            assert(a == active_frame(frames));
            assert(rolled[a] == rolls);
            assert(after.bowling.players@ == before.bowling.players@.insert(player_id@, after.bowling.players@[player_id@]));
            assert(after.bowling.players@[player_id@]@ == rolled);
            let next = turn_after_roll(before, after, a, rolled[a]);
            assert(after.current_turn == next.0);
            assert(after.bowling.current_roll == next.1);
            assert(after.bowling.pins_remaining == next.2);
            assert(after.bowling.game_over == next.3);
        }
        Ok(scoreboard)
    }
}

} // verus!
