use vstd::prelude::*;

use crate::board::{
    card_model, cards_for, current_player_text, lobby_member_infos, member_info, member_infos, rotated_order, scoreboard_model,
};
use crate::game::{result_refusal, throw_refusal};
use crate::lobby::{broadcast_to, send_to};
use crate::protocol::{ClientMessage, FrameScoreModel, OutgoingModel, ServerMessageModel};
use crate::server::{expired_hosts, expired_players, names_member, refuse, role_model};
use crate::state::{
    AppState, ConnectionRole, Lobby, Player, ThrowCheck, next_turn, active_player_connected, in_order, lemma_next_turn_in_order, lemma_order_without,
    lemma_position_from, member_sessions, members_consistent, order_without, position_from, bowled_frames,
    can_take_turn, first_turn_from, turn_search_start,
};

use crate::controller::{ControllerModel, LOG_CAPACITY, UiEventModel, after_event};
use crate::scoring::{
    active_frame, first_open_frame, frame_is_complete, frame_score, frames_shaped, next_roll_state,
    roll_sum, rolls_from, running_total, with_roll, has_finished, frame_view_model,
};

verus! {

// ---------------------------------------------------------------------------
// Scoring
// ---------------------------------------------------------------------------

/// Frame `i`, if scored, scores between zero and thirty.
pub open spec fn score_at_most_thirty(frames: Seq<Seq<u8>>, i: int) -> bool {
    match frame_score(frames, i) {
        Some(s) => 0 <= s <= 30,
        None => true,
    }
}

/// The frame a player bowls next is the first one that still needs rolls: every frame
/// before it is complete, and it is either incomplete or one past the last frame.
pub proof fn active_frame_is_first_open(frames: Seq<Seq<u8>>)
    ensures
        0 <= active_frame(frames) <= frames.len(),
        forall|j: int| 0 <= j < active_frame(frames) ==> frame_is_complete(j, #[trigger] frames[j]),
        active_frame(frames) < frames.len() ==> !frame_is_complete(
            active_frame(frames),
            frames[active_frame(frames)],
        ),
{
    lemma_first_open_from(frames, 0);
}

proof fn lemma_first_open_from(frames: Seq<Seq<u8>>, from: int)
    requires
        0 <= from <= frames.len(),
    ensures
        from <= first_open_frame(frames, from) <= frames.len(),
        forall|j: int| from <= j < first_open_frame(frames, from) ==> frame_is_complete(j, #[trigger] frames[j]),
        first_open_frame(frames, from) < frames.len() ==> !frame_is_complete(
            first_open_frame(frames, from),
            frames[first_open_frame(frames, from)],
        ),
    decreases frames.len() - from,
{
    if from < frames.len() && frame_is_complete(from, frames[from]) {
        lemma_first_open_from(frames, from + 1);
    }
}

/// Within a turn, play goes on exactly while the frame is still open: for a frame with
/// at least one roll, no roll above ten pins and no second roll knocking more pins than
/// the first left standing, there is a next roll in the same turn if and only if the
/// frame is not complete.
pub proof fn turn_continues_while_frame_open(frame_index: int, rolls: Seq<u8>)
    requires
        rolls.len() >= 1,
        forall|k: int| 0 <= k < rolls.len() ==> #[trigger] rolls[k] <= 10,
        rolls.len() >= 2 && rolls[0] < 10 ==> rolls[0] + rolls[1] <= 10,
    ensures
        (next_roll_state(frame_index, rolls) is None) == frame_is_complete(frame_index, rolls),
{
    assert(rolls[0] <= 10);
    if rolls.len() >= 2 {
        assert(rolls[1] <= 10);
    }
}

/// A frame is scored only once it is complete.
pub proof fn scored_frames_are_complete(frames: Seq<Seq<u8>>, i: int)
    requires
        0 <= i <= 9,
        frame_score(frames, i) is Some,
    ensures
        frame_is_complete(i, frames[i]),
{
}

/// One more roll of at most ten pins, while the game is not over, keeps a player's
/// frames in the shape that play leaves them in.
pub proof fn roll_keeps_frames_shaped(frames: Seq<Seq<u8>>, pins: u8)
    requires
        frames_shaped(frames),
        active_frame(frames) < 10,
        pins <= 10,
    ensures
        frames_shaped(with_roll(frames, pins)),
{
    active_frame_is_first_open(frames);
    let a = active_frame(frames);
    let next = with_roll(frames, pins);
    if a >= frames.len() {
        assert forall|i: int| 0 <= i < next.len() - 1 implies frame_is_complete(i, #[trigger] next[i]) by {
            assert(next[i] == frames[i]);
        }
        assert forall|i: int| 0 <= i < next.len() implies crate::scoring::frame_shaped(i, #[trigger] next[i]) by {
            if i < frames.len() {
                assert(next[i] == frames[i]);
            } else {
                assert(next[i] =~= seq![pins]);
            }
        }
    } else {
        assert(a == frames.len() - 1) by {
            if a < frames.len() - 1 {
                assert(frame_is_complete(a, frames[a]));
            }
        }
        let f = frames[a];
        assert(crate::scoring::frame_shaped(a, f));
        assert(!frame_is_complete(a, f));
        assert forall|i: int| 0 <= i < next.len() implies crate::scoring::frame_shaped(i, #[trigger] next[i]) by {
            if i != a {
                assert(next[i] == frames[i]);
            } else {
                assert(next[i] == f.push(pins));
                assert forall|k: int| 0 <= k < next[i].len() implies #[trigger] next[i][k] <= 10 by {
                    if k < f.len() {
                        assert(next[i][k] == f[k]);
                    }
                }
            }
        }
        assert forall|i: int| 0 <= i < next.len() - 1 implies frame_is_complete(i, #[trigger] next[i]) by {
            assert(next[i] == frames[i]);
        }
    }
}

/// Every roll bowled after a given frame is at most ten pins when every roll is.
proof fn lemma_later_rolls_bounded(frames: Seq<Seq<u8>>, start: int)
    requires
        forall|i: int, k: int| 0 <= i < frames.len() && 0 <= k < frames[i].len() ==> #[trigger] frames[i][k] <= 10,
    ensures
        forall|k: int| 0 <= k < rolls_from(frames, start).len() ==> #[trigger] rolls_from(frames, start)[k] <= 10,
{
    if 0 <= start < frames.len() {
        let tail = frames.subrange(start, frames.len() as int);
        assert forall|i: int, k: int| 0 <= i < tail.len() && 0 <= k < tail[i].len() implies #[trigger] tail[i][k]
            <= 10 by {
            assert(tail[i] == frames[start + i]);
        }
        lemma_flatten_bounded(tail);
    }
}

proof fn lemma_flatten_bounded(s: Seq<Seq<u8>>)
    requires
        forall|i: int, k: int| 0 <= i < s.len() && 0 <= k < s[i].len() ==> #[trigger] s[i][k] <= 10,
    ensures
        forall|k: int| 0 <= k < s.flatten().len() ==> #[trigger] s.flatten()[k] <= 10,
    decreases s.len(),
{
    if s.len() > 0 {
        let rest = s.drop_first();
        assert forall|i: int, k: int| 0 <= i < rest.len() && 0 <= k < rest[i].len() implies #[trigger] rest[i][k] <= 10 by {
            assert(rest[i] == s[i + 1]);
        }
        lemma_flatten_bounded(rest);
        assert(s.flatten() == s[0] + rest.flatten());
        assert forall|k: int| 0 <= k < s.flatten().len() implies #[trigger] s.flatten()[k] <= 10 by {
            if k < s[0].len() {
                assert(s.flatten()[k] == s[0][k]);
            } else {
                assert(s.flatten()[k] == rest.flatten()[k - s[0].len()]);
            }
        }
    }
}

/// In frames as play leaves them, no frame scores more than thirty, and a whole game
/// at most three hundred.
pub proof fn shaped_scores_bounded(frames: Seq<Seq<u8>>)
    requires
        frames_shaped(frames),
    ensures
        forall|i: int| #[trigger] score_at_most_thirty(frames, i),
        running_total(frames, 9) <= 300,
{
    assert forall|i: int, k: int| 0 <= i < frames.len() && 0 <= k < frames[i].len() implies #[trigger] frames[i][k]
        <= 10 by {
        assert(crate::scoring::frame_shaped(i, frames[i]));
    }
    assert forall|i: int| #[trigger] score_at_most_thirty(frames, i) by {
        lemma_later_rolls_bounded(frames, i + 1);
        if 0 <= i < frames.len() {
            let f = frames[i];
            assert(crate::scoring::frame_shaped(i, f));
            if i == 9 {
                lemma_short_sum(f);
            } else if f.len() >= 1 && f[0] != 10 && f.len() >= 2 {
                assert(f[0] <= 10 && f[1] <= 10);
            }
            if rolls_from(frames, i + 1).len() >= 1 {
                assert(rolls_from(frames, i + 1)[0] <= 10);
            }
            if rolls_from(frames, i + 1).len() >= 2 {
                assert(rolls_from(frames, i + 1)[1] <= 10);
            }
        }
    }
    lemma_running_total_bounded(frames, 9);
}

proof fn lemma_short_sum(f: Seq<u8>)
    requires
        forall|k: int| 0 <= k < f.len() ==> #[trigger] f[k] <= 10,
    ensures
        0 <= roll_sum(f) <= 10 * f.len(),
    decreases f.len(),
{
    if f.len() >= 1 {
        let f1 = f.drop_last();
        assert forall|k: int| 0 <= k < f1.len() implies #[trigger] f1[k] <= 10 by {
            assert(f1[k] == f[k]);
        }
        lemma_short_sum(f1);
        assert(f.last() == f[f.len() - 1]);
    }
}

proof fn lemma_running_total_bounded(frames: Seq<Seq<u8>>, i: int)
    requires
        forall|j: int| #[trigger] score_at_most_thirty(frames, j),
    ensures
        i >= -1 ==> running_total(frames, i) <= 30 * (i + 1),
    decreases i + 1,
{
    if i >= 0 {
        lemma_running_total_bounded(frames, i - 1);
        assert(score_at_most_thirty(frames, i));
    }
}

} // verus!

verus! {

// ---------------------------------------------------------------------------
// Lobbies and sessions
// ---------------------------------------------------------------------------

/// Changing one lobby without touching its members' sessions, its turn order, its host
/// session or the validity of its turn keeps lobbies and sessions consistent.
proof fn lemma_lobby_update_keeps_consistent(pre: AppState, post: AppState, code: Seq<char>)
    requires
        pre.consistent(),
        pre.lobbies@.contains_key(code),
        post.lobbies@ == pre.lobbies@.insert(code, post.lobbies@[code]),
        post.player_sessions@ == pre.player_sessions@,
        post.host_sessions@ == pre.host_sessions@,
        post.lobbies@[code].host_session@ == pre.lobbies@[code].host_session@,
        post.lobbies@[code].players@.dom() == pre.lobbies@[code].players@.dom(),
        forall|id: Seq<char>|
            #[trigger] post.lobbies@[code].players@.contains_key(id) ==> post.lobbies@[code].players@[id].session@
                == pre.lobbies@[code].players@[id].session@,
        post.lobbies@[code].player_order@ == pre.lobbies@[code].player_order@,
        post.lobbies@[code].current_turn matches Some(t) ==> t < post.lobbies@[code].player_order@.len(),
    ensures
        post.consistent(),
{
    let before = pre.lobbies@[code];
    let after = post.lobbies@[code];
    assert(members_consistent(after)) by {
        assert(members_consistent(before));
        assert forall|i: int| 0 <= i < after.player_order@.len() implies #[trigger] after.players@.contains_key(
            after.player_order@[i]@,
        ) by {
            assert(before.players@.contains_key(before.player_order@[i]@));
        }
        assert forall|id: Seq<char>| #[trigger] after.players@.contains_key(id) implies exists|i: int|
            0 <= i < after.player_order@.len() && after.player_order@[i]@ == id by {
            assert(before.players@.contains_key(id));
        }
    }
    assert forall|c: Seq<char>| #[trigger] post.lobbies@.contains_key(c) implies members_consistent(post.lobbies@[c]) by {
        if c != code {
            assert(pre.lobbies@.contains_key(c));
        }
    }
    assert forall|s: Seq<char>| #[trigger] post.host_sessions@.contains_key(s) implies post.lobbies@.contains_key(
        post.host_sessions@[s]@,
    ) && post.lobbies@[post.host_sessions@[s]@].host_session@ == s by {
        assert(pre.host_sessions@.contains_key(s));
    }
    assert forall|c: Seq<char>| #[trigger] post.lobbies@.contains_key(c) implies post.host_sessions@.contains_key(
        post.lobbies@[c].host_session@,
    ) && post.host_sessions@[post.lobbies@[c].host_session@]@ == c by {
        assert(pre.lobbies@.contains_key(c));
    }
    assert forall|s: Seq<char>| #[trigger] post.player_sessions@.contains_key(s) implies {
        let r = post.player_sessions@[s];
        &&& post.lobbies@.contains_key(r.code@)
        &&& post.lobbies@[r.code@].players@.contains_key(r.player_id@)
        &&& post.lobbies@[r.code@].players@[r.player_id@].session@ == s
    } by {
        assert(pre.player_sessions@.contains_key(s));
        let r = pre.player_sessions@[s];
        if r.code@ == code {
            assert(before.players@.contains_key(r.player_id@));
            assert(after.players@.contains_key(r.player_id@));
        }
    }
    assert forall|c: Seq<char>, id: Seq<char>|
        post.lobbies@.contains_key(c) && #[trigger] post.lobbies@[c].players@.contains_key(id) implies {
        let s = post.lobbies@[c].players@[id].session@;
        &&& post.player_sessions@.contains_key(s)
        &&& post.player_sessions@[s].code@ == c
        &&& post.player_sessions@[s].player_id@ == id
    } by {
        assert(pre.lobbies@.contains_key(c));
        if c == code {
            assert(before.players@.contains_key(id));
        } else {
            assert(pre.lobbies@[c].players@.contains_key(id));
        }
    }
}

/// Moving the turn on keeps lobbies and sessions consistent.
pub proof fn advancing_turn_keeps_consistent(pre: AppState, post: AppState, code: Seq<char>, out: Seq<OutgoingModel>)
    requires
        AppState::advances_turn(pre, post, code, out),
        pre.consistent(),
    ensures
        post.consistent(),
{
    let lobby = pre.lobbies@[code];
    if !pre.lobbies@.contains_key(code) || !lobby.game_in_progress || lobby.ball_in_play || active_player_connected(
        lobby,
    ) {
        lemma_same_state_consistent(pre, post);
    } else {
        lemma_next_turn_in_order(lobby, lobby.current_turn);
        lemma_lobby_update_keeps_consistent(pre, post, code);
    }
}

/// A state holding the same lobbies and sessions as a consistent one is consistent.
proof fn lemma_same_state_consistent(pre: AppState, post: AppState)
    requires
        pre.consistent(),
        post.same_as(pre),
    ensures
        post.consistent(),
{
}

/// Closing a lobby keeps lobbies and sessions consistent: the lobby goes together with
/// all sessions that lead to it.
pub proof fn closing_lobby_keeps_consistent(
    pre: AppState,
    post: AppState,
    code: Seq<char>,
    reason: Seq<char>,
    out: Seq<OutgoingModel>,
)
    requires
        AppState::closes_lobby(pre, post, code, reason, out),
        pre.consistent(),
    ensures
        post.consistent(),
{
    if !pre.lobbies@.contains_key(code) {
        lemma_same_state_consistent(pre, post);
    } else {
        let lobby = pre.lobbies@[code];
        assert forall|c: Seq<char>| #[trigger] post.lobbies@.contains_key(c) implies members_consistent(
            post.lobbies@[c],
        ) by {
            assert(pre.lobbies@.contains_key(c));
        }
        assert forall|s: Seq<char>| #[trigger] post.host_sessions@.contains_key(s) implies post.lobbies@.contains_key(
            post.host_sessions@[s]@,
        ) && post.lobbies@[post.host_sessions@[s]@].host_session@ == s by {
            assert(pre.host_sessions@.contains_key(s));
        }
        assert forall|c: Seq<char>| #[trigger] post.lobbies@.contains_key(c) implies post.host_sessions@.contains_key(
            post.lobbies@[c].host_session@,
        ) && post.host_sessions@[post.lobbies@[c].host_session@]@ == c by {
            assert(pre.lobbies@.contains_key(c));
        }
        assert forall|s: Seq<char>| #[trigger] post.player_sessions@.contains_key(s) implies {
            let r = post.player_sessions@[s];
            &&& post.lobbies@.contains_key(r.code@)
            &&& post.lobbies@[r.code@].players@.contains_key(r.player_id@)
            &&& post.lobbies@[r.code@].players@[r.player_id@].session@ == s
        } by {
            assert(pre.player_sessions@.contains_key(s));
            assert(!member_sessions(lobby).contains(s));
            let r = pre.player_sessions@[s];
            if r.code@ == code {
                assert(lobby.players@.contains_key(r.player_id@));
                assert(member_sessions(lobby).contains(s));
            }
        }
        assert forall|c: Seq<char>, id: Seq<char>|
            post.lobbies@.contains_key(c) && #[trigger] post.lobbies@[c].players@.contains_key(id) implies {
            let s = post.lobbies@[c].players@[id].session@;
            &&& post.player_sessions@.contains_key(s)
            &&& post.player_sessions@[s].code@ == c
            &&& post.player_sessions@[s].player_id@ == id
        } by {
            assert(pre.lobbies@.contains_key(c));
            assert(pre.lobbies@[c].players@.contains_key(id));
            let s = pre.lobbies@[c].players@[id].session@;
            if member_sessions(lobby).contains(s) {
                let id2 = choose|id2: Seq<char>| lobby.players@.contains_key(id2) && lobby.players@[id2].session@ == s;
                assert(pre.lobbies@[code].players@.contains_key(id2));
            }
        }
    }
}

} // verus!

verus! {

/// Dropping a player whose session is `session` keeps lobbies and sessions consistent.
proof fn lemma_dropping_keeps_consistent(
    pre: AppState,
    mid: AppState,
    code: Seq<char>,
    player_id: Seq<char>,
    session: Seq<char>,
    out: Seq<OutgoingModel>,
)
    requires
        AppState::drops_player(pre, mid, code, player_id, session, out),
        pre.lobbies@.contains_key(code),
        pre.consistent(),
        pre.player_sessions@.contains_key(session) ==> pre.player_sessions@[session].code@ == code
            && pre.player_sessions@[session].player_id@ == player_id,
        pre.lobbies@[code].players@.contains_key(player_id) ==> pre.lobbies@[code].players@[player_id].session@
            == session,
    ensures
        mid.consistent(),
{
    let lobby = pre.lobbies@[code];
    let after = mid.lobbies@[code];
    let order = lobby.player_order@;
    let new_order = after.player_order@;
    assert(members_consistent(lobby));
    lemma_order_without(order, player_id);
    lemma_position_from(order, player_id, 0);
    assert(members_consistent(after)) by {
        assert forall|i: int| 0 <= i < new_order.len() implies #[trigger] after.players@.contains_key(new_order[i]@) by {
            assert(in_order(new_order, new_order[i]@));
            assert(in_order(order, new_order[i]@));
            let j = choose|j: int| 0 <= j < order.len() && order[j]@ == new_order[i]@;
            assert(lobby.players@.contains_key(order[j]@));
        }
        assert forall|id: Seq<char>| #[trigger] after.players@.contains_key(id) implies exists|i: int|
            0 <= i < new_order.len() && new_order[i]@ == id by {
            assert(lobby.players@.contains_key(id));
            assert(in_order(order, id));
            assert(in_order(new_order, id));
        }
        match lobby.current_turn {
            Some(t) => {
                match position_from(order, player_id, 0) {
                    Some(r) => {},
                    None => {
                        assert(new_order == order);
                    },
                }
            },
            None => {},
        }
    }
    assert forall|c: Seq<char>| #[trigger] mid.lobbies@.contains_key(c) implies members_consistent(mid.lobbies@[c]) by {
        if c != code {
            assert(pre.lobbies@.contains_key(c));
        }
    }
    assert forall|s: Seq<char>| #[trigger] mid.host_sessions@.contains_key(s) implies mid.lobbies@.contains_key(
        mid.host_sessions@[s]@,
    ) && mid.lobbies@[mid.host_sessions@[s]@].host_session@ == s by {
        assert(pre.host_sessions@.contains_key(s));
    }
    assert forall|c: Seq<char>| #[trigger] mid.lobbies@.contains_key(c) implies mid.host_sessions@.contains_key(
        mid.lobbies@[c].host_session@,
    ) && mid.host_sessions@[mid.lobbies@[c].host_session@]@ == c by {
        assert(pre.lobbies@.contains_key(c));
    }
    assert forall|s: Seq<char>| #[trigger] mid.player_sessions@.contains_key(s) implies {
        let r = mid.player_sessions@[s];
        &&& mid.lobbies@.contains_key(r.code@)
        &&& mid.lobbies@[r.code@].players@.contains_key(r.player_id@)
        &&& mid.lobbies@[r.code@].players@[r.player_id@].session@ == s
    } by {
        assert(pre.player_sessions@.contains_key(s));
        let r = pre.player_sessions@[s];
        if r.code@ == code {
            assert(lobby.players@.contains_key(r.player_id@));
        }
    }
    assert forall|c: Seq<char>, id: Seq<char>|
        mid.lobbies@.contains_key(c) && #[trigger] mid.lobbies@[c].players@.contains_key(id) implies {
        let s = mid.lobbies@[c].players@[id].session@;
        &&& mid.player_sessions@.contains_key(s)
        &&& mid.player_sessions@[s].code@ == c
        &&& mid.player_sessions@[s].player_id@ == id
    } by {
        assert(pre.lobbies@.contains_key(c));
        if c == code {
            assert(lobby.players@.contains_key(id));
        } else {
            assert(pre.lobbies@[c].players@.contains_key(id));
        }
    }
}

/// Removing a player keeps lobbies and sessions consistent, as long as `session` and
/// `player_id` belong together: the session, if known, leads to that player in lobby
/// `code`, and that player, if a member, has that session.
pub proof fn removing_player_keeps_consistent(
    pre: AppState,
    post: AppState,
    code: Seq<char>,
    player_id: Seq<char>,
    session: Seq<char>,
    out: Seq<OutgoingModel>,
)
    requires
        AppState::removes_player(pre, post, code, player_id, session, out),
        pre.consistent(),
        pre.player_sessions@.contains_key(session) ==> pre.player_sessions@[session].code@ == code
            && pre.player_sessions@[session].player_id@ == player_id,
        pre.lobbies@.contains_key(code) && pre.lobbies@[code].players@.contains_key(player_id)
            ==> pre.lobbies@[code].players@[player_id].session@ == session,
    ensures
        post.consistent(),
{
    if !pre.lobbies@.contains_key(code) {
        lemma_same_state_consistent(pre, post);
    } else {
        let (mid, out1, out2) = choose|mid: AppState, out1: Seq<OutgoingModel>, out2: Seq<OutgoingModel>|
            AppState::drops_player(pre, mid, code, player_id, session, out1) && AppState::advances_turn(
                mid,
                post,
                code,
                out2,
            ) && out == out1 + out2;
        lemma_dropping_keeps_consistent(pre, mid, code, player_id, session, out1);
        advancing_turn_keeps_consistent(mid, post, code, out2);
    }
}

} // verus!

verus! {

/// The role of a connection fits the state: a player's session, while known, leads to
/// the lobby the connection joined.
pub open spec fn role_fits(st: AppState, role: Option<ConnectionRole>) -> bool {
    match role {
        Some(ConnectionRole::Player { code, session }) => st.player_sessions@.contains_key(session@)
            ==> st.player_sessions@[session@].code@ == code@,
        _ => true,
    }
}

/// Leaving keeps lobbies and sessions consistent when the role fits the state.
pub proof fn leaving_keeps_consistent(pre: AppState, post: AppState, role: ConnectionRole, out: Seq<OutgoingModel>)
    requires
        AppState::leaves(pre, post, role, out),
        pre.consistent(),
        role_fits(pre, Some(role)),
    ensures
        post.consistent(),
{
    match role {
        ConnectionRole::Host { code, .. } => {
            closing_lobby_keeps_consistent(pre, post, code@, "lobby closed: host left"@, out);
        },
        ConnectionRole::Player { code, session } => {
            if pre.player_sessions@.contains_key(session@) {
                let r = pre.player_sessions@[session@];
                assert(pre.lobbies@[r.code@].players@.contains_key(r.player_id@));
                removing_player_keeps_consistent(pre, post, code@, r.player_id@, session@, out);
            } else {
                lemma_same_state_consistent(pre, post);
            }
        },
    }
}

/// Losing a connection keeps lobbies and sessions consistent.
pub proof fn disconnecting_keeps_consistent(
    pre: AppState,
    post: AppState,
    role: ConnectionRole,
    now: u64,
    out: Seq<OutgoingModel>,
)
    requires
        AppState::disconnects(pre, post, role, now, out),
        pre.consistent(),
    ensures
        post.consistent(),
{
    match role {
        ConnectionRole::Host { code, session } => {
            if pre.host_sessions@.contains_key(session@) && pre.host_sessions@[session@]@ == code@
                && pre.lobbies@.contains_key(code@) {
                assert(members_consistent(pre.lobbies@[code@]));
                lemma_lobby_update_keeps_consistent(pre, post, code@);
            } else {
                lemma_same_state_consistent(pre, post);
            }
        },
        ConnectionRole::Player { code, session } => {
            if !(pre.player_sessions@.contains_key(session@) && pre.player_sessions@[session@].code@ == code@
                && pre.lobbies@.contains_key(code@)) {
                lemma_same_state_consistent(pre, post);
            } else {
                let id = pre.player_sessions@[session@].player_id@;
                let lobby = pre.lobbies@[code@];
                let (mid, out2) = choose|mid: AppState, out2: Seq<OutgoingModel>|
                    {
                        &&& mid.player_sessions@ == pre.player_sessions@
                        &&& mid.host_sessions@ == pre.host_sessions@
                        &&& if lobby.players@.contains_key(id) {
                            &&& mid.lobbies@ == pre.lobbies@.insert(
                                code@,
                                Lobby { players: mid.lobbies@[code@].players, ..lobby },
                            )
                            &&& mid.lobbies@[code@].players@ == lobby.players@.insert(
                                id,
                                Player { connection: None, disconnected_at: Some(now), ..lobby.players@[id] },
                            )
                        } else {
                            mid.lobbies@ == pre.lobbies@
                        }
                        &&& AppState::advances_turn(mid, post, code@, out2)
                        &&& out == broadcast_to(
                            mid.lobbies@,
                            code@,
                            ServerMessageModel::LobbyUpdated {
                                code: code@,
                                players: lobby_member_infos(mid.lobbies@[code@]),
                            },
                        ) + out2
                    };
                if lobby.players@.contains_key(id) {
                    assert(members_consistent(lobby));
                    assert(mid.lobbies@[code@].players@.dom() =~= lobby.players@.dom());
                    lemma_lobby_update_keeps_consistent(pre, mid, code@);
                } else {
                    lemma_same_state_consistent(pre, mid);
                }
                advancing_turn_keeps_consistent(mid, post, code@, out2);
            }
        },
    }
}

/// Creating a lobby keeps lobbies and sessions consistent when the new host session was
/// not in use.
pub proof fn creating_lobby_keeps_consistent(
    pre: AppState,
    post: AppState,
    connection: u64,
    code: Seq<char>,
    host_session: Seq<char>,
    out: Seq<OutgoingModel>,
)
    requires
        AppState::creates_lobby(pre, post, connection, code, host_session, out),
        pre.consistent(),
        !pre.host_sessions@.contains_key(host_session),
    ensures
        post.consistent(),
{
    let lobby = post.lobbies@[code];
    assert(members_consistent(lobby));
    assert forall|c: Seq<char>| #[trigger] post.lobbies@.contains_key(c) implies members_consistent(post.lobbies@[c]) by {
        if c != code {
            assert(pre.lobbies@.contains_key(c));
        }
    }
    assert forall|s: Seq<char>| #[trigger] post.host_sessions@.contains_key(s) implies post.lobbies@.contains_key(
        post.host_sessions@[s]@,
    ) && post.lobbies@[post.host_sessions@[s]@].host_session@ == s by {
        if s != host_session {
            assert(pre.host_sessions@.contains_key(s));
            assert(pre.lobbies@.contains_key(pre.host_sessions@[s]@));
        }
    }
    assert forall|c: Seq<char>| #[trigger] post.lobbies@.contains_key(c) implies post.host_sessions@.contains_key(
        post.lobbies@[c].host_session@,
    ) && post.host_sessions@[post.lobbies@[c].host_session@]@ == c by {
        if c != code {
            assert(pre.lobbies@.contains_key(c));
            assert(pre.host_sessions@.contains_key(pre.lobbies@[c].host_session@));
        }
    }
    assert forall|s: Seq<char>| #[trigger] post.player_sessions@.contains_key(s) implies {
        let r = post.player_sessions@[s];
        &&& post.lobbies@.contains_key(r.code@)
        &&& post.lobbies@[r.code@].players@.contains_key(r.player_id@)
        &&& post.lobbies@[r.code@].players@[r.player_id@].session@ == s
    } by {
        assert(pre.player_sessions@.contains_key(s));
        let r = pre.player_sessions@[s];
        assert(pre.lobbies@.contains_key(r.code@));
    }
    assert forall|c: Seq<char>, id: Seq<char>|
        post.lobbies@.contains_key(c) && #[trigger] post.lobbies@[c].players@.contains_key(id) implies {
        let s = post.lobbies@[c].players@[id].session@;
        &&& post.player_sessions@.contains_key(s)
        &&& post.player_sessions@[s].code@ == c
        &&& post.player_sessions@[s].player_id@ == id
    } by {
        if c != code {
            assert(pre.lobbies@.contains_key(c));
            assert(pre.lobbies@[c].players@.contains_key(id));
        }
    }
}

/// Joining a lobby keeps lobbies and sessions consistent when the new player id and the
/// new session were not in use.
pub proof fn joining_keeps_consistent(
    pre: AppState,
    post: AppState,
    connection: u64,
    code: Seq<char>,
    username: Seq<char>,
    joined: Option<(Seq<char>, Seq<char>)>,
    out: Seq<OutgoingModel>,
)
    requires
        AppState::joins(pre, post, connection, code, username, joined, out),
        pre.consistent(),
        joined matches Some((player_id, session)) ==> !pre.player_sessions@.contains_key(session)
            && !pre.lobbies@[code].players@.contains_key(player_id),
    ensures
        post.consistent(),
{
    if !pre.lobbies@.contains_key(code) {
        lemma_same_state_consistent(pre, post);
    } else {
        let (player_id, session) = joined->0;
        let lobby = pre.lobbies@[code];
        let after = post.lobbies@[code];
        assert(members_consistent(lobby));
        assert(after.player_order@ =~= lobby.player_order@.push(after.player_order@.last()));
        assert(members_consistent(after)) by {
            let o = after.player_order@;
            assert forall|i: int, j: int| 0 <= i < o.len() && 0 <= j < o.len() && i != j implies o[i]@ != o[j]@ by {
                if i < o.len() - 1 && j < o.len() - 1 {
                    assert(o[i] == lobby.player_order@[i]);
                    assert(o[j] == lobby.player_order@[j]);
                } else if i < o.len() - 1 {
                    assert(o[i] == lobby.player_order@[i]);
                    assert(lobby.players@.contains_key(o[i]@));
                } else {
                    assert(o[j] == lobby.player_order@[j]);
                    assert(lobby.players@.contains_key(o[j]@));
                }
            }
            assert forall|i: int| 0 <= i < o.len() implies #[trigger] after.players@.contains_key(o[i]@) by {
                if i < o.len() - 1 {
                    assert(o[i] == lobby.player_order@[i]);
                    assert(lobby.players@.contains_key(lobby.player_order@[i]@));
                }
            }
            assert forall|id: Seq<char>| #[trigger] after.players@.contains_key(id) implies exists|i: int|
                0 <= i < o.len() && o[i]@ == id by {
                if id == player_id {
                    assert(o[o.len() - 1]@ == id);
                } else {
                    assert(lobby.players@.contains_key(id));
                    let i = choose|i: int| 0 <= i < lobby.player_order@.len() && lobby.player_order@[i]@ == id;
                    assert(o[i] == lobby.player_order@[i]);
                }
            }
        }
        assert forall|c: Seq<char>| #[trigger] post.lobbies@.contains_key(c) implies members_consistent(
            post.lobbies@[c],
        ) by {
            if c != code {
                assert(pre.lobbies@.contains_key(c));
            }
        }
        assert forall|s: Seq<char>| #[trigger] post.host_sessions@.contains_key(s) implies post.lobbies@.contains_key(
            post.host_sessions@[s]@,
        ) && post.lobbies@[post.host_sessions@[s]@].host_session@ == s by {
            assert(pre.host_sessions@.contains_key(s));
        }
        assert forall|c: Seq<char>| #[trigger] post.lobbies@.contains_key(c) implies post.host_sessions@.contains_key(
            post.lobbies@[c].host_session@,
        ) && post.host_sessions@[post.lobbies@[c].host_session@]@ == c by {
            assert(pre.lobbies@.contains_key(c));
        }
        assert forall|s: Seq<char>| #[trigger] post.player_sessions@.contains_key(s) implies {
            let r = post.player_sessions@[s];
            &&& post.lobbies@.contains_key(r.code@)
            &&& post.lobbies@[r.code@].players@.contains_key(r.player_id@)
            &&& post.lobbies@[r.code@].players@[r.player_id@].session@ == s
        } by {
            if s != session {
                assert(pre.player_sessions@.contains_key(s));
                let r = pre.player_sessions@[s];
                assert(pre.lobbies@.contains_key(r.code@));
                if r.code@ == code {
                    assert(lobby.players@.contains_key(r.player_id@));
                    assert(r.player_id@ != player_id);
                }
            }
        }
        assert forall|c: Seq<char>, id: Seq<char>|
            post.lobbies@.contains_key(c) && #[trigger] post.lobbies@[c].players@.contains_key(id) implies {
            let s = post.lobbies@[c].players@[id].session@;
            &&& post.player_sessions@.contains_key(s)
            &&& post.player_sessions@[s].code@ == c
            &&& post.player_sessions@[s].player_id@ == id
        } by {
            assert(pre.lobbies@.contains_key(c));
            if c == code && id == player_id {
            } else {
                if c == code {
                    assert(lobby.players@.contains_key(id));
                } else {
                    assert(pre.lobbies@[c].players@.contains_key(id));
                }
                let s = pre.lobbies@[c].players@[id].session@;
                assert(pre.player_sessions@.contains_key(s));
                assert(s != session);
            }
        }
    }
}

/// A host reconnecting keeps lobbies and sessions consistent.
pub proof fn reconnecting_host_keeps_consistent(
    pre: AppState,
    post: AppState,
    connection: u64,
    code: Seq<char>,
    session: Seq<char>,
    ok: bool,
    out: Seq<OutgoingModel>,
)
    requires
        AppState::reconnects_host(pre, post, connection, code, session, ok, out),
        pre.consistent(),
    ensures
        post.consistent(),
{
    if ok {
        assert(members_consistent(pre.lobbies@[code]));
        lemma_lobby_update_keeps_consistent(pre, post, code);
    } else {
        lemma_same_state_consistent(pre, post);
    }
}

/// A player reconnecting keeps lobbies and sessions consistent.
pub proof fn reconnecting_player_keeps_consistent(
    pre: AppState,
    post: AppState,
    connection: u64,
    code: Seq<char>,
    session: Seq<char>,
    ok: bool,
    out: Seq<OutgoingModel>,
)
    requires
        AppState::reconnects_player(pre, post, connection, code, session, ok, out),
        pre.consistent(),
    ensures
        post.consistent(),
{
    if ok {
        let lobby = pre.lobbies@[code];
        assert(members_consistent(lobby));
        assert(post.lobbies@[code].players@.dom() =~= lobby.players@.dom());
        lemma_lobby_update_keeps_consistent(pre, post, code);
    } else {
        lemma_same_state_consistent(pre, post);
    }
}

/// Starting a game keeps lobbies and sessions consistent.
pub proof fn starting_game_keeps_consistent(
    pre: AppState,
    post: AppState,
    code: Seq<char>,
    started: Option<(Seq<char>, crate::protocol::ScoreboardModel)>,
)
    requires
        AppState::starts_game(pre, post, code, started),
        pre.consistent(),
    ensures
        post.consistent(),
{
    let lobby = pre.lobbies@[code];
    if !pre.lobbies@.contains_key(code) || next_turn(lobby, None) is None {
        lemma_same_state_consistent(pre, post);
    } else {
        lemma_next_turn_in_order(lobby, None);
        lemma_lobby_update_keeps_consistent(pre, post, code);
    }
}

/// A throw keeps lobbies and sessions consistent.
pub proof fn throwing_keeps_consistent(
    pre: AppState,
    post: AppState,
    code: Seq<char>,
    session: Seq<char>,
    check: ThrowCheck,
    r: Result<Seq<char>, Seq<char>>,
)
    requires
        AppState::relays_throw(pre, post, code, session, check, r),
        pre.consistent(),
    ensures
        post.consistent(),
{
    if throw_refusal(pre, code, session, check) is Some {
        lemma_same_state_consistent(pre, post);
    } else {
        assert(members_consistent(pre.lobbies@[code]));
        lemma_lobby_update_keeps_consistent(pre, post, code);
    }
}

/// Recording a throw result keeps lobbies and sessions consistent.
pub proof fn recording_result_keeps_consistent(
    pre: AppState,
    post: AppState,
    code: Seq<char>,
    knocked_pins: u8,
    standing_pins: u8,
    r: Result<crate::protocol::ScoreboardModel, Seq<char>>,
)
    requires
        AppState::applies_result(pre, post, code, knocked_pins, standing_pins, r),
        pre.consistent(),
    ensures
        post.consistent(),
{
    let lobby = pre.lobbies@[code];
    if !pre.lobbies@.contains_key(code) || result_refusal(lobby, knocked_pins, standing_pins) is Some {
        lemma_same_state_consistent(pre, post);
    } else {
        let after = post.lobbies@[code];
        assert(members_consistent(lobby));
        lemma_next_turn_in_order(after, lobby.current_turn);
        lemma_lobby_update_keeps_consistent(pre, post, code);
    }
}

} // verus!

verus! {

/// The identifiers a request handed out were not in use before: the host session of a
/// created lobby, the player id and session of a join (as the first reply carries them).
pub open spec fn uses_fresh_identifiers(pre: AppState, msg: ClientMessage, out: Seq<OutgoingModel>) -> bool {
    match msg {
        ClientMessage::CreateLobby => out.len() > 0 ==> match out[0].message {
            ServerMessageModel::LobbyCreated { host_session, .. } => !pre.host_sessions@.contains_key(host_session),
            _ => true,
        },
        ClientMessage::JoinLobby { code, .. } => out.len() > 0 ==> match out[0].message {
            ServerMessageModel::LobbyJoined { player_id, player_session, .. } => !pre.player_sessions@.contains_key(
                player_session,
            ) && !pre.lobbies@[code@].players@.contains_key(player_id),
            _ => true,
        },
        _ => true,
    }
}

/// Handling a request keeps lobbies and sessions consistent, and the connection's role
/// fitting the state, when the role fitted before and the identifiers handed out were
/// fresh.
pub proof fn handling_request_keeps_consistent(
    pre: AppState,
    post: AppState,
    connection: u64,
    role: Option<ConnectionRole>,
    role_after: Option<ConnectionRole>,
    msg: ClientMessage,
    check: ThrowCheck,
    out: Seq<OutgoingModel>,
)
    requires
        AppState::handles(pre, post, connection, role, role_after, msg, check, out),
        pre.consistent(),
        role_fits(pre, role),
        uses_fresh_identifiers(pre, msg, out),
    ensures
        post.consistent(),
        role_fits(post, role_after),
{
    match msg {
        ClientMessage::CreateLobby => {
            let (code, session) = choose|code: Seq<char>, session: Seq<char>|
                {
                    &&& AppState::creates_lobby(pre, post, connection, code, session, out)
                    &&& role_model(role_after) == Some((true, code, session))
                };
            creating_lobby_keeps_consistent(pre, post, connection, code, session, out);
        },
        ClientMessage::JoinLobby { code, username } => {
            let (joined, out1) = choose|joined: Option<(Seq<char>, Seq<char>)>, out1: Seq<OutgoingModel>|
                {
                    &&& AppState::joins(pre, post, connection, code@, username@, joined, out1)
                    &&& match joined {
                        Some((_, session)) => out == out1 && role_model(role_after) == Some((false, code@, session)),
                        None => out == refuse(connection, "lobby not found"@) && role_after == role,
                    }
                };
            joining_keeps_consistent(pre, post, connection, code@, username@, joined, out1);
        },
        ClientMessage::ReconnectHost { code, host_session } => {
            let (ok, out1) = choose|ok: bool, out1: Seq<OutgoingModel>|
                {
                    &&& AppState::reconnects_host(pre, post, connection, code@, host_session@, ok, out1)
                    &&& if ok {
                        out == out1 && role_model(role_after) == Some((true, code@, host_session@))
                    } else {
                        out == refuse(connection, "host reconnect failed"@) && role_after == role
                    }
                };
            reconnecting_host_keeps_consistent(pre, post, connection, code@, host_session@, ok, out1);
        },
        ClientMessage::ReconnectPlayer { code, player_session } => {
            let (ok, out1) = choose|ok: bool, out1: Seq<OutgoingModel>|
                {
                    &&& AppState::reconnects_player(pre, post, connection, code@, player_session@, ok, out1)
                    &&& if ok {
                        out == out1 && role_model(role_after) == Some((false, code@, player_session@))
                    } else {
                        out == refuse(connection, "player reconnect failed"@) && role_after == role
                    }
                };
            reconnecting_player_keeps_consistent(pre, post, connection, code@, player_session@, ok, out1);
        },
        ClientMessage::Leave => {
            match role {
                Some(r) => leaving_keeps_consistent(pre, post, r, out),
                None => lemma_same_state_consistent(pre, post),
            }
        },
        ClientMessage::StartGame => {
            match role {
                Some(ConnectionRole::Host { code, .. }) => {
                    let started = choose|started: Option<(Seq<char>, crate::protocol::ScoreboardModel)>|
                        {
                            &&& AppState::starts_game(pre, post, code@, started)
                            &&& match started {
                                Some((id, board)) => out == broadcast_to(
                                    post.lobbies@,
                                    code@,
                                    ServerMessageModel::GameStarted { code: code@, current_player_id: id },
                                ) + broadcast_to(
                                    post.lobbies@,
                                    code@,
                                    ServerMessageModel::ScoreboardUpdated { scoreboard: board },
                                ),
                                None => out == refuse(connection, "need at least one connected player to start"@),
                            }
                        };
                    starting_game_keeps_consistent(pre, post, code@, started);
                },
                _ => lemma_same_state_consistent(pre, post),
            }
        },
        ClientMessage::ThrowEvent { force_bits, direction_x_bits, direction_z_bits } => {
            match role {
                Some(ConnectionRole::Player { code, session }) => {
                    let r = choose|r: Result<Seq<char>, Seq<char>>|
                        {
                            &&& AppState::relays_throw(pre, post, code@, session@, check, r)
                            &&& match r {
                                Ok(id) => out == broadcast_to(
                                    post.lobbies@,
                                    code@,
                                    ServerMessageModel::ThrowEvent {
                                        player_id: id,
                                        force_bits,
                                        direction_x_bits,
                                        direction_z_bits,
                                    },
                                ),
                                Err(reason) => out == refuse(connection, reason),
                            }
                        };
                    throwing_keeps_consistent(pre, post, code@, session@, check, r);
                },
                _ => lemma_same_state_consistent(pre, post),
            }
        },
        ClientMessage::ReportThrowResult { knocked_pins, standing_pins } => {
            match role {
                Some(ConnectionRole::Host { code, .. }) => {
                    let r = choose|r: Result<crate::protocol::ScoreboardModel, Seq<char>>|
                        {
                            &&& AppState::applies_result(pre, post, code@, knocked_pins, standing_pins, r)
                            &&& match r {
                                Ok(board) => out == broadcast_to(
                                    post.lobbies@,
                                    code@,
                                    ServerMessageModel::ScoreboardUpdated { scoreboard: board },
                                ),
                                Err(reason) => out == refuse(connection, reason),
                            }
                        };
                    recording_result_keeps_consistent(pre, post, code@, knocked_pins, standing_pins, r);
                },
                _ => lemma_same_state_consistent(pre, post),
            }
        },
    }
}

/// Everything in `b` was already in `a`: its sessions, its lobbies and their members
/// with the same sessions.
pub open spec fn only_loses(a: AppState, b: AppState) -> bool {
    &&& forall|s: Seq<char>|
        #[trigger] b.player_sessions@.contains_key(s) ==> a.player_sessions@.contains_key(s)
            && b.player_sessions@[s] == a.player_sessions@[s]
    &&& forall|c: Seq<char>| #[trigger] b.lobbies@.contains_key(c) ==> a.lobbies@.contains_key(c)
    &&& forall|c: Seq<char>, id: Seq<char>|
        b.lobbies@.contains_key(c) && #[trigger] b.lobbies@[c].players@.contains_key(id) ==> a.lobbies@[c].players@.contains_key(
            id,
        ) && b.lobbies@[c].players@[id].session@ == a.lobbies@[c].players@[id].session@
}

proof fn lemma_closing_only_loses(pre: AppState, post: AppState, code: Seq<char>, reason: Seq<char>, out: Seq<OutgoingModel>)
    requires
        AppState::closes_lobby(pre, post, code, reason, out),
    ensures
        only_loses(pre, post),
{
}

proof fn lemma_advancing_only_loses(pre: AppState, post: AppState, code: Seq<char>, out: Seq<OutgoingModel>)
    requires
        AppState::advances_turn(pre, post, code, out),
    ensures
        only_loses(pre, post),
{
    assert forall|c: Seq<char>, id: Seq<char>|
        post.lobbies@.contains_key(c) && #[trigger] post.lobbies@[c].players@.contains_key(id) implies pre.lobbies@[c].players@.contains_key(
        id,
    ) && post.lobbies@[c].players@[id].session@ == pre.lobbies@[c].players@[id].session@ by {
        if c == code {
        }
    }
}

proof fn lemma_removing_only_loses(
    pre: AppState,
    post: AppState,
    code: Seq<char>,
    player_id: Seq<char>,
    session: Seq<char>,
    out: Seq<OutgoingModel>,
)
    requires
        AppState::removes_player(pre, post, code, player_id, session, out),
    ensures
        only_loses(pre, post),
{
    if pre.lobbies@.contains_key(code) {
        let (mid, out1, out2) = choose|mid: AppState, out1: Seq<OutgoingModel>, out2: Seq<OutgoingModel>|
            AppState::drops_player(pre, mid, code, player_id, session, out1) && AppState::advances_turn(
                mid,
                post,
                code,
                out2,
            ) && out == out1 + out2;
        lemma_advancing_only_loses(mid, post, code, out2);
        assert(only_loses(pre, mid)) by {
            assert forall|c: Seq<char>, id: Seq<char>|
                mid.lobbies@.contains_key(c) && #[trigger] mid.lobbies@[c].players@.contains_key(id) implies pre.lobbies@[c].players@.contains_key(
                id,
            ) && mid.lobbies@[c].players@[id].session@ == pre.lobbies@[c].players@[id].session@ by {
                if c == code {
                }
            }
        }
    }
}

/// Sweeping for timeouts keeps lobbies and sessions consistent.
pub proof fn sweeping_keeps_consistent(pre: AppState, post: AppState, now: u64, out: Seq<OutgoingModel>)
    requires
        AppState::sweeps(pre, post, now, out),
        pre.consistent(),
    ensures
        post.consistent(),
{
    let closes = expired_hosts(pre.lobbies.entries(), now);
    let removals = expired_players(pre.lobbies.entries(), now);
    let c = closes.len() as int;
    let k = c + removals.len();
    let (states, outs) = choose|states: Seq<AppState>, outs: Seq<Seq<OutgoingModel>>|
        {
            &&& states.len() == k + 1
            &&& outs.len() == k
            &&& states[0] == pre
            &&& states[k] == post
            &&& forall|i: int|
                #![trigger outs[i]]
                0 <= i < c ==> AppState::closes_lobby(
                    states[i],
                    states[i + 1],
                    closes[i],
                    "lobby closed: host timeout"@,
                    outs[i],
                )
            &&& forall|i: int|
                #![trigger outs[i]]
                c <= i < k ==> AppState::removes_player(
                    states[i],
                    states[i + 1],
                    removals[i - c].0,
                    removals[i - c].1,
                    removals[i - c].2,
                    outs[i],
                )
            &&& out == outs.flatten()
        };
    lemma_sweep_chain(pre, states, outs, closes, removals, 0);
}

proof fn lemma_sweep_chain(
    pre: AppState,
    states: Seq<AppState>,
    outs: Seq<Seq<OutgoingModel>>,
    closes: Seq<Seq<char>>,
    removals: Seq<(Seq<char>, Seq<char>, Seq<char>)>,
    i: int,
)
    requires
        0 <= i <= closes.len() + removals.len(),
        states.len() == closes.len() + removals.len() + 1,
        outs.len() == closes.len() + removals.len(),
        pre.consistent(),
        states[i].consistent(),
        only_loses(pre, states[i]),
        forall|j: int| 0 <= j < removals.len() ==> names_member(pre, #[trigger] removals[j]),
        forall|x: int|
            #![trigger outs[x]]
            0 <= x < closes.len() ==> AppState::closes_lobby(
                states[x],
                states[x + 1],
                closes[x],
                "lobby closed: host timeout"@,
                outs[x],
            ),
        forall|x: int|
            #![trigger outs[x]]
            closes.len() <= x < closes.len() + removals.len() ==> AppState::removes_player(
                states[x],
                states[x + 1],
                removals[x - closes.len()].0,
                removals[x - closes.len()].1,
                removals[x - closes.len()].2,
                outs[x],
            ),
    ensures
        states[closes.len() + removals.len() as int].consistent(),
    decreases closes.len() + removals.len() - i,
{
    let c = closes.len() as int;
    let k = c + removals.len();
    if i < k {
        let _ = outs[i];
        if i < c {
            closing_lobby_keeps_consistent(states[i], states[i + 1], closes[i], "lobby closed: host timeout"@, outs[i]);
            lemma_closing_only_loses(states[i], states[i + 1], closes[i], "lobby closed: host timeout"@, outs[i]);
        } else {
            let who = removals[i - c];
            assert(names_member(pre, who));
            let s = states[i];
            removing_player_keeps_consistent(s, states[i + 1], who.0, who.1, who.2, outs[i]);
            lemma_removing_only_loses(s, states[i + 1], who.0, who.1, who.2, outs[i]);
        }
        lemma_only_loses_transitive(pre, states[i], states[i + 1]);
        lemma_sweep_chain(pre, states, outs, closes, removals, i + 1);
    }
}

proof fn lemma_only_loses_transitive(a: AppState, b: AppState, c: AppState)
    requires
        only_loses(a, b),
        only_loses(b, c),
    ensures
        only_loses(a, c),
{
    assert forall|x: Seq<char>, id: Seq<char>|
        c.lobbies@.contains_key(x) && #[trigger] c.lobbies@[x].players@.contains_key(id) implies a.lobbies@[x].players@.contains_key(
        id,
    ) && c.lobbies@[x].players@[id].session@ == a.lobbies@[x].players@[id].session@ by {
        assert(b.lobbies@.contains_key(x));
        assert(b.lobbies@[x].players@.contains_key(id));
    }
}

} // verus!

verus! {

/// A player who lost the connection can come back: after the connection of a player
/// whose session leads to lobby `code` is lost, reconnecting with that session succeeds
/// and the player is connected again on the new connection.
pub proof fn player_reconnects_after_disconnect(
    pre: AppState,
    mid: AppState,
    post: AppState,
    role: ConnectionRole,
    now: u64,
    connection: u64,
    ok: bool,
    out1: Seq<OutgoingModel>,
    out2: Seq<OutgoingModel>,
)
    requires
        pre.consistent(),
        role matches ConnectionRole::Player { code, session } && pre.player_sessions@.contains_key(session@)
            && pre.player_sessions@[session@].code@ == code@,
        AppState::disconnects(pre, mid, role, now, out1),
        AppState::reconnects_player(mid, post, connection, role->Player_code@, role->Player_session@, ok, out2),
    ensures
        ok,
        post.lobbies@[role->Player_code@].players@[pre.player_sessions@[role->Player_session@].player_id@].connection
            == Some(connection),
{
    let code = role->Player_code@;
    let session = role->Player_session@;
    let id = pre.player_sessions@[session].player_id@;
    let lobby = pre.lobbies@[code];
    assert(pre.lobbies@.contains_key(code));
    assert(lobby.players@.contains_key(id));
    let (m1, o2) = choose|m1: AppState, o2: Seq<OutgoingModel>|
        {
            &&& m1.player_sessions@ == pre.player_sessions@
            &&& m1.host_sessions@ == pre.host_sessions@
            &&& if lobby.players@.contains_key(id) {
                &&& m1.lobbies@ == pre.lobbies@.insert(code, Lobby { players: m1.lobbies@[code].players, ..lobby })
                &&& m1.lobbies@[code].players@ == lobby.players@.insert(
                    id,
                    Player { connection: None, disconnected_at: Some(now), ..lobby.players@[id] },
                )
            } else {
                m1.lobbies@ == pre.lobbies@
            }
            &&& AppState::advances_turn(m1, mid, code, o2)
            &&& out1 == broadcast_to(
                m1.lobbies@,
                code,
                ServerMessageModel::LobbyUpdated { code, players: lobby_member_infos(m1.lobbies@[code]) },
            ) + o2
        };
    lemma_advancing_only_loses(m1, mid, code, o2);
    assert(m1.lobbies@[code].players@.contains_key(id));
    assert(mid.lobbies@.contains_key(code)) by {
        let l = m1.lobbies@[code];
        if !(!m1.lobbies@.contains_key(code) || !l.game_in_progress || l.ball_in_play || active_player_connected(l)) {
        }
    }
    assert(mid.lobbies@[code].players@.contains_key(id)) by {
        let l = m1.lobbies@[code];
        if !m1.lobbies@.contains_key(code) || !l.game_in_progress || l.ball_in_play || active_player_connected(l) {
        } else {
            match next_turn(l, l.current_turn) {
                Some(t) => {},
                None => {},
            }
        }
    }
}

/// A host who lost the connection can come back: after the connection of the host of
/// lobby `code` is lost, reconnecting with the host session succeeds.
pub proof fn host_reconnects_after_disconnect(
    pre: AppState,
    mid: AppState,
    post: AppState,
    role: ConnectionRole,
    now: u64,
    connection: u64,
    ok: bool,
    out1: Seq<OutgoingModel>,
    out2: Seq<OutgoingModel>,
)
    requires
        pre.consistent(),
        role matches ConnectionRole::Host { code, session } && pre.host_sessions@.contains_key(session@)
            && pre.host_sessions@[session@]@ == code@,
        AppState::disconnects(pre, mid, role, now, out1),
        AppState::reconnects_host(mid, post, connection, role->Host_code@, role->Host_session@, ok, out2),
    ensures
        ok,
        post.lobbies@[role->Host_code@].host_connection == Some(connection),
{
}

/// Once a lobby is closed, no session that led to it reconnects: neither its host
/// session nor the session of any of its members.
pub proof fn closed_lobby_refuses_reconnects(
    pre: AppState,
    mid: AppState,
    code: Seq<char>,
    reason: Seq<char>,
    out: Seq<OutgoingModel>,
    post: AppState,
    connection: u64,
    session: Seq<char>,
    ok: bool,
    out2: Seq<OutgoingModel>,
)
    requires
        pre.consistent(),
        pre.lobbies@.contains_key(code),
        AppState::closes_lobby(pre, mid, code, reason, out),
        AppState::reconnects_player(mid, post, connection, code, session, ok, out2)
            || AppState::reconnects_host(mid, post, connection, code, session, ok, out2),
    ensures
        !ok,
        post.same_as(mid),
{
}

/// While a ball is rolling, another throw is refused: after a throw in lobby `code` is
/// accepted, a throw by any player of that lobby is refused with "throw already in
/// progress" (and any other throw is refused for its own reason).
pub proof fn second_throw_is_refused(
    pre: AppState,
    mid: AppState,
    post: AppState,
    code: Seq<char>,
    session: Seq<char>,
    check: ThrowCheck,
    id: Seq<char>,
    session2: Seq<char>,
    check2: ThrowCheck,
    r2: Result<Seq<char>, Seq<char>>,
)
    requires
        AppState::relays_throw(pre, mid, code, session, check, Ok(id)),
        AppState::relays_throw(mid, post, code, session2, check2, r2),
    ensures
        r2 is Err,
        post.same_as(mid),
        mid.player_sessions@.contains_key(session2) && mid.player_sessions@[session2].code@ == code ==> r2
            == Err::<Seq<char>, Seq<char>>("throw already in progress"@),
{
}

/// A throw result is taken once: after a result is recorded in lobby `code`, a second
/// report is refused with "no throw in progress" until the next throw.
pub proof fn second_report_is_refused(
    pre: AppState,
    mid: AppState,
    post: AppState,
    code: Seq<char>,
    knocked_pins: u8,
    standing_pins: u8,
    board: crate::protocol::ScoreboardModel,
    knocked2: u8,
    standing2: u8,
    r2: Result<crate::protocol::ScoreboardModel, Seq<char>>,
)
    requires
        AppState::applies_result(pre, mid, code, knocked_pins, standing_pins, Ok(board)),
        AppState::applies_result(mid, post, code, knocked2, standing2, r2),
    ensures
        r2 == Err::<crate::protocol::ScoreboardModel, Seq<char>>("no throw in progress"@),
        post.same_as(mid),
{
    let lobby = pre.lobbies@[code];
    assert(pre.lobbies@.contains_key(code));
    assert(result_refusal(lobby, knocked_pins, standing_pins) is None);
}

/// The member list of a lobby whose members and turn order agree shows every member
/// exactly once, in turn order.
pub proof fn member_list_follows_turn_order(lobby: Lobby)
    requires
        members_consistent(lobby),
    ensures
        lobby_member_infos(lobby).len() == lobby.player_order@.len(),
        forall|i: int|
            0 <= i < lobby.player_order@.len() ==> #[trigger] lobby_member_infos(lobby)[i] == member_info(
                lobby,
                lobby.player_order@[i]@,
            ),
{
    lemma_member_infos_all(lobby, lobby.player_order@);
}

proof fn lemma_member_infos_all(lobby: Lobby, ids: Seq<String>)
    requires
        forall|i: int| 0 <= i < ids.len() ==> #[trigger] lobby.players@.contains_key(ids[i]@),
    ensures
        member_infos(lobby, ids).len() == ids.len(),
        forall|i: int| 0 <= i < ids.len() ==> #[trigger] member_infos(lobby, ids)[i] == member_info(lobby, ids[i]@),
    decreases ids.len(),
{
    if ids.len() > 0 {
        let prefix = ids.drop_last();
        assert forall|i: int| 0 <= i < prefix.len() implies #[trigger] lobby.players@.contains_key(prefix[i]@) by {
            assert(prefix[i] == ids[i]);
        }
        lemma_member_infos_all(lobby, prefix);
        assert(lobby.players@.contains_key(ids[ids.len() - 1]@));
        assert forall|i: int| 0 <= i < ids.len() implies #[trigger] member_infos(lobby, ids)[i] == member_info(
            lobby,
            ids[i]@,
        ) by {
            if i < prefix.len() {
                assert(prefix[i] == ids[i]);
            }
        }
    }
}

/// The scoreboard of a lobby whose members and turn order agree has one scorecard per
/// member, starting with the player whose turn it is and going round the turn order.
pub proof fn scoreboard_lists_everyone_from_current(lobby: Lobby)
    requires
        members_consistent(lobby),
    ensures
        scoreboard_model(lobby).players.len() == lobby.player_order@.len(),
        forall|i: int|
            0 <= i < lobby.player_order@.len() ==> #[trigger] scoreboard_model(lobby).players[i].player_id
                == rotated_order(lobby)[i]@,
        lobby.current_turn is Some && lobby.player_order@.len() > 0 ==> scoreboard_model(lobby).players[0].player_id
            == current_player_text(lobby),
{
    let ids = rotated_order(lobby);
    let n = lobby.player_order@.len() as int;
    assert forall|i: int| 0 <= i < ids.len() implies #[trigger] lobby.players@.contains_key(ids[i]@) by {
        let start = match lobby.current_turn {
            Some(t) => t as int,
            None => 0,
        };
        assert(ids[i] == lobby.player_order@[(start + i) % n]);
    }
    lemma_cards_all(lobby, ids, current_player_text(lobby));
    if lobby.current_turn is Some && n > 0 {
        let t = lobby.current_turn->0 as int;
        assert(t < n);
        assert(ids[0] == lobby.player_order@[(t + 0) % n]);
        vstd::arithmetic::div_mod::lemma_small_mod(t as nat, n as nat);
    }
}

proof fn lemma_cards_all(lobby: Lobby, ids: Seq<String>, current: Seq<char>)
    requires
        forall|i: int| 0 <= i < ids.len() ==> #[trigger] lobby.players@.contains_key(ids[i]@),
    ensures
        cards_for(lobby, ids, current).len() == ids.len(),
        forall|i: int| 0 <= i < ids.len() ==> #[trigger] cards_for(lobby, ids, current)[i].player_id == ids[i]@,
    decreases ids.len(),
{
    if ids.len() > 0 {
        let prefix = ids.drop_last();
        assert forall|i: int| 0 <= i < prefix.len() implies #[trigger] lobby.players@.contains_key(prefix[i]@) by {
            assert(prefix[i] == ids[i]);
        }
        lemma_cards_all(lobby, prefix, current);
        assert(lobby.players@.contains_key(ids[ids.len() - 1]@));
        assert forall|i: int| 0 <= i < ids.len() implies #[trigger] cards_for(lobby, ids, current)[i].player_id
            == ids[i]@ by {
            if i < prefix.len() {
                assert(prefix[i] == ids[i]);
            }
        }
    }
}

// ---------------------------------------------------------------------------
// Controller client
// ---------------------------------------------------------------------------

/// The client's log never grows past its capacity, and whatever an event logs becomes
/// its newest line, the lines before it staying in order.
pub proof fn client_log_stays_bounded(m: ControllerModel, event: UiEventModel, throw_text: Seq<char>)
    requires
        m.log.len() <= LOG_CAPACITY,
    ensures
        after_event(m, event, throw_text).log.len() <= LOG_CAPACITY,
        after_event(m, event, throw_text).log.len() == m.log.len() || after_event(m, event, throw_text).log.len()
            == m.log.len() + 1 || (m.log.len() == LOG_CAPACITY && after_event(m, event, throw_text).log.len()
            == LOG_CAPACITY),
        after_event(m, event, throw_text).log.len() > 0 && after_event(m, event, throw_text).log != m.log ==> {
            let post = after_event(m, event, throw_text).log;
            post.drop_last() == (if m.log.len() >= LOG_CAPACITY { m.log.drop_first() } else { m.log })
        },
{
    let post = after_event(m, event, throw_text).log;
    if post != m.log && post.len() > 0 {
        let prev = if m.log.len() >= LOG_CAPACITY { m.log.drop_first() } else { m.log };
        assert(post == prev.push(post.last()));
        assert(post.drop_last() =~= prev);
    }
}

// ---------------------------------------------------------------------------
// Known frame scores stay
// ---------------------------------------------------------------------------

/// Whether `a` is a prefix of `b`.
pub open spec fn prefix_of(a: Seq<u8>, b: Seq<u8>) -> bool {
    a.len() <= b.len() && forall|k: int| 0 <= k < a.len() ==> #[trigger] a[k] == b[k]
}

/// Whether `later` grows out of `frames` by more rolls only: the frames before the last
/// stay as they are, the last one only gains rolls, and new frames may follow it.
pub open spec fn grows_into(frames: Seq<Seq<u8>>, later: Seq<Seq<u8>>) -> bool {
    &&& frames.len() >= 1
    &&& later.len() >= frames.len()
    &&& forall|j: int| 0 <= j < frames.len() - 1 ==> #[trigger] later[j] == frames[j]
    &&& prefix_of(frames.last(), later[frames.len() - 1])
}

proof fn lemma_flatten_grows(a: Seq<Seq<u8>>, b: Seq<Seq<u8>>)
    requires
        grows_into(a, b),
    ensures
        prefix_of(a.flatten(), b.flatten()),
    decreases a.len(),
{
    let fa = a.flatten();
    let fb = b.flatten();
    let ra = a.drop_first().flatten();
    let rb = b.drop_first().flatten();
    assert(fa == a[0] + ra);
    assert(fb == b[0] + rb);
    if a.len() == 1 {
        assert(ra.len() == 0);
        assert(prefix_of(a[0], b[0]));
        assert forall|k: int| 0 <= k < fa.len() implies #[trigger] fa[k] == fb[k] by {
            assert(fa[k] == a[0][k]);
            assert(fb[k] == b[0][k]);
        }
    } else {
        assert(b[0] == a[0]);
        let a1 = a.drop_first();
        let b1 = b.drop_first();
        assert forall|j: int| 0 <= j < a1.len() - 1 implies #[trigger] b1[j] == a1[j] by {
            assert(b1[j] == b[j + 1]);
            assert(a1[j] == a[j + 1]);
        }
        assert(a1.last() == a.last());
        assert(b1[a1.len() - 1] == b[a.len() - 1]);
        lemma_flatten_grows(a1, b1);
        assert forall|k: int| 0 <= k < fa.len() implies #[trigger] fa[k] == fb[k] by {
            if k < a[0].len() {
                assert(fa[k] == a[0][k]);
                assert(fb[k] == b[0][k]);
            } else {
                assert(fa[k] == ra[k - a[0].len()]);
                assert(fb[k] == rb[k - b[0].len()]);
            }
        }
    }
}

/// Once the score of one of the first nine frames is known, later rolls never change
/// it.
pub proof fn known_frame_score_stays(frames: Seq<Seq<u8>>, later: Seq<Seq<u8>>, i: int)
    requires
        0 <= i < 9,
        frame_score(frames, i) is Some,
        grows_into(frames, later),
    ensures
        frame_score(later, i) == frame_score(frames, i),
{
    let n = frames.len() as int;
    assert(i < n);
    if i < n - 1 {
        assert(later[i] == frames[i]);
        let a = frames.subrange(i + 1, n);
        let b = later.subrange(i + 1, later.len() as int);
        assert(a.len() >= 1);
        assert forall|j: int| 0 <= j < a.len() - 1 implies #[trigger] b[j] == a[j] by {
            assert(b[j] == later[i + 1 + j]);
            assert(a[j] == frames[i + 1 + j]);
        }
        assert(a.last() == frames.last());
        assert(b[a.len() - 1] == later[n - 1]);
        lemma_flatten_grows(a, b);
        let ba = rolls_from(frames, i + 1);
        let bb = rolls_from(later, i + 1);
        assert(ba == a.flatten());
        assert(bb == b.flatten());
        if ba.len() >= 1 {
            assert(ba[0] == bb[0]);
        }
        if ba.len() >= 2 {
            assert(ba[1] == bb[1]);
        }
    } else {
        assert(rolls_from(frames, i + 1).len() == 0);
        assert(prefix_of(frames[i], later[i]));
        assert(frames[i][0] == later[i][0]);
        assert(frames[i][1] == later[i][1]);
    }
}

// ---------------------------------------------------------------------------
// Removing a player keeps the turn with its holder
// ---------------------------------------------------------------------------

proof fn lemma_order_without_at(order: Seq<String>, id: Seq<char>, r: int)
    requires
        0 <= r < order.len(),
        order[r]@ == id,
        forall|j: int| 0 <= j < order.len() && j != r ==> order[j]@ != id,
    ensures
        order_without(order, id) == order.remove(r),
    decreases order.len(),
{
    let prefix = order.drop_last();
    if r == order.len() - 1 {
        assert forall|j: int| 0 <= j < prefix.len() implies prefix[j]@ != id by {
            assert(prefix[j] == order[j]);
        }
        lemma_order_without(prefix, id);
        assert(order_without(order, id) == order_without(prefix, id));
        assert(order.remove(r) =~= prefix);
    } else {
        assert forall|j: int| 0 <= j < prefix.len() && j != r implies prefix[j]@ != id by {
            assert(prefix[j] == order[j]);
        }
        lemma_order_without_at(prefix, id, r);
        assert(order.last()@ != id);
        assert(order_without(order, id) == order_without(prefix, id).push(order.last()));
        assert(prefix.remove(r).push(order.last()) =~= order.remove(r));
    }
}

/// When a player who stands once in the turn order and does not hold the turn is
/// removed while the member holding it is connected, the turn stays with that same
/// player (one place back if the removed player stood before it). The removed player
/// leaves the members, the turn order, the game and the sessions; the player, if
/// connected and a member, is told, and the lobby hears the
/// new member list.
pub proof fn removal_keeps_turn_holder(
    pre: AppState,
    post: AppState,
    code: Seq<char>,
    player_id: Seq<char>,
    session: Seq<char>,
    out: Seq<OutgoingModel>,
    r: int,
)
    requires
        pre.lobbies@.contains_key(code),
        0 <= r < pre.lobbies@[code].player_order@.len(),
        pre.lobbies@[code].player_order@[r]@ == player_id,
        forall|j: int|
            0 <= j < pre.lobbies@[code].player_order@.len() && j != r ==> #[trigger] pre.lobbies@[code].player_order@[j]@
                != player_id,
        pre.lobbies@[code].current_turn matches Some(t) && t < pre.lobbies@[code].player_order@.len()
            && pre.lobbies@[code].player_order@[t as int]@ != player_id && pre.lobbies@[code].players@.contains_key(
            pre.lobbies@[code].player_order@[t as int]@,
        ) && pre.lobbies@[code].players@[pre.lobbies@[code].player_order@[t as int]@].connection is Some,
        AppState::removes_player(pre, post, code, player_id, session, out),
    ensures
        ({
            let lobby = pre.lobbies@[code];
            let after = post.lobbies@[code];
            let t = lobby.current_turn->0 as int;
            let t2 = if r < t {
                t - 1
            } else {
                t
            };
            &&& post.lobbies@.contains_key(code)
            &&& after.player_order@ == order_without(lobby.player_order@, player_id)
            &&& after.current_turn == Some(t2 as usize)
            &&& 0 <= t2 < after.player_order@.len()
            &&& after.player_order@[t2]@ == lobby.player_order@[t]@
            &&& after.players@ == lobby.players@.remove(player_id)
            &&& after.bowling.players@ == lobby.bowling.players@.remove(player_id)
            &&& post.player_sessions@ == pre.player_sessions@.remove(session)
            &&& post.host_sessions@ == pre.host_sessions@
            &&& out == (if lobby.players@.contains_key(player_id) && lobby.players@[player_id].connection is Some {
                seq![
                    send_to(
                        lobby.players@[player_id].connection->0,
                        ServerMessageModel::Error { message: "disconnected: reconnect timeout"@ },
                    ),
                ]
            } else {
                Seq::<OutgoingModel>::empty()
            }) + broadcast_to(
                post.lobbies@,
                code,
                ServerMessageModel::LobbyUpdated { code, players: lobby_member_infos(after) },
            )
        }),
{
    let lobby = pre.lobbies@[code];
    let order = lobby.player_order@;
    let t = lobby.current_turn->0 as int;
    let q = order[t]@;
    let (mid, out1, out2) = choose|mid: AppState, out1: Seq<OutgoingModel>, out2: Seq<OutgoingModel>|
        AppState::drops_player(pre, mid, code, player_id, session, out1) && AppState::advances_turn(
            mid,
            post,
            code,
            out2,
        ) && out == out1 + out2;
    assert forall|j: int| 0 <= j < order.len() && j != r implies order[j]@ != player_id by {}
    lemma_position_from(order, player_id, 0);
    assert(position_from(order, player_id, 0) == Some(r));
    lemma_order_without_at(order, player_id, r);
    let after = mid.lobbies@[code];
    assert(mid.lobbies@.contains_key(code));
    let w = order.remove(r);
    assert(after.player_order@ == w);
    assert(w.len() == order.len() - 1);
    assert(r != t);
    let t2 = if r < t {
        t - 1
    } else {
        t
    };
    assert(after.current_turn == Some(t2 as usize));
    assert(w[t2] == order[t]);
    assert(lobby.players@.contains_key(q));
    assert(after.players@.contains_key(q));
    assert(after.players@[q] == lobby.players@[q]);
    assert(active_player_connected(after));
    assert(out2 == Seq::<OutgoingModel>::empty());
    assert(post.same_as(mid));
    assert(out =~= out1);
}

// ---------------------------------------------------------------------------
// Removing the player who holds the turn
// ---------------------------------------------------------------------------

/// When the player holding the turn (standing once in the turn order) is removed and
/// the player who stood right after them (going round to the front after the last
/// place) is a connected member, that player gets the turn: it stays at the removed
/// position, or goes to the front if the removed player stood last. The turn never
/// moves back to the player before the removed one.
pub proof fn removing_turn_holder_passes_turn_on(
    pre: AppState,
    post: AppState,
    code: Seq<char>,
    player_id: Seq<char>,
    session: Seq<char>,
    out: Seq<OutgoingModel>,
    r: int,
)
    requires
        pre.lobbies@.contains_key(code),
        0 <= r < pre.lobbies@[code].player_order@.len(),
        pre.lobbies@[code].player_order@[r]@ == player_id,
        forall|j: int|
            0 <= j < pre.lobbies@[code].player_order@.len() && j != r ==> #[trigger] pre.lobbies@[code].player_order@[j]@
                != player_id,
        pre.lobbies@[code].current_turn matches Some(t) && t == r,
        ({
            let order = pre.lobbies@[code].player_order@;
            let next = if r + 1 < order.len() {
                r + 1
            } else {
                0
            };
            &&& next != r
            &&& pre.lobbies@[code].players@.contains_key(order[next]@)
            &&& pre.lobbies@[code].players@[order[next]@].connection is Some
        }),
        AppState::removes_player(pre, post, code, player_id, session, out),
    ensures
        ({
            let order = pre.lobbies@[code].player_order@;
            let after = post.lobbies@[code];
            let t2 = if r + 1 < order.len() {
                r
            } else {
                0
            };
            let next = if r + 1 < order.len() {
                r + 1
            } else {
                0
            };
            &&& post.lobbies@.contains_key(code)
            &&& after.player_order@ == order_without(order, player_id)
            &&& after.player_order@.len() == order.len() - 1
            &&& after.current_turn matches Some(u) && u == t2
            &&& 0 <= t2 < after.player_order@.len()
            &&& after.player_order@[t2]@ == order[next]@
            &&& after.players@ == pre.lobbies@[code].players@.remove(player_id)
        }),
{
    let lobby = pre.lobbies@[code];
    let order = lobby.player_order@;
    let n = order.len() as int;
    let next = if r + 1 < n {
        r + 1
    } else {
        0
    };
    let q = order[next]@;
    let (mid, out1, out2) = choose|mid: AppState, out1: Seq<OutgoingModel>, out2: Seq<OutgoingModel>|
        AppState::drops_player(pre, mid, code, player_id, session, out1) && AppState::advances_turn(
            mid,
            post,
            code,
            out2,
        ) && out == out1 + out2;
    lemma_position_from(order, player_id, 0);
    assert(position_from(order, player_id, 0) == Some(r));
    lemma_order_without_at(order, player_id, r);
    let after = mid.lobbies@[code];
    assert(mid.lobbies@.contains_key(code));
    let w = order.remove(r);
    assert(after.player_order@ == w);
    assert(n >= 2);
    let t2 = if r + 1 < n {
        r
    } else {
        0
    };
    assert(after.current_turn matches Some(u) && u == t2);
    assert(w[t2] == order[next]);
    assert(q != player_id);
    assert(after.players@.contains_key(q));
    assert(after.players@[q] == lobby.players@[q]);
    assert(active_player_connected(after));
    assert(post.same_as(mid));
}

// ---------------------------------------------------------------------------
// A scorecard's total
// ---------------------------------------------------------------------------

/// The last running total shown on a scorecard's frame lines, or 0 if no line shows one.
pub open spec fn last_shown_total(lines: Seq<FrameScoreModel>) -> int
    decreases lines.len(),
{
    if lines.len() == 0 {
        0
    } else {
        match lines.last().cumulative_score {
            Some(c) => c as int,
            None => last_shown_total(lines.drop_last()),
        }
    }
}

proof fn lemma_last_shown_total(frames: Seq<Seq<u8>>, k: int)
    requires
        0 <= k <= 10,
    ensures
        last_shown_total(Seq::new(k as nat, |i: int| frame_view_model(frames, i))) == (running_total(
            frames,
            k - 1,
        ) as u16) as int,
    decreases k,
{
    let lines = Seq::new(k as nat, |i: int| frame_view_model(frames, i));
    if k == 0 {
        assert(running_total(frames, -1) == 0);
    } else {
        let prev = Seq::new((k - 1) as nat, |i: int| frame_view_model(frames, i));
        assert(lines.drop_last() =~= prev);
        lemma_last_shown_total(frames, k - 1);
        assert(lines.last() == frame_view_model(frames, k - 1));
    }
}

/// A scorecard's total is the running total on its last frame line that shows one (the
/// score of every frame known so far), and 0 when no line shows one, whether or not the
/// tenth frame is scored yet.
pub proof fn card_total_is_last_shown_total(lobby: Lobby, id: Seq<char>, current: Seq<char>)
    ensures
        card_model(lobby, id, current).total_score as int == last_shown_total(card_model(lobby, id, current).frames),
        card_model(lobby, id, current).frames.len() == 10,
{
    let frames = bowled_frames(lobby, id);
    lemma_last_shown_total(frames, 10);
}

// ---------------------------------------------------------------------------
// Who may get the turn
// ---------------------------------------------------------------------------

proof fn lemma_first_turn_can_play(lobby: Lobby, start: int, offset: int)
    requires
        start >= 0,
    ensures
        first_turn_from(lobby, start, offset) matches Some(t) ==> 0 <= t < lobby.player_order@.len()
            && can_take_turn(lobby, t),
    decreases lobby.player_order@.len() - offset,
{
    let n = lobby.player_order@.len() as int;
    if 0 <= offset < n {
        lemma_first_turn_can_play(lobby, start, offset + 1);
    }
}

/// The turn search only ever lands on a member who is connected and has not finished
/// the game: a disconnected or finished member is never given the turn.
pub proof fn turn_goes_only_to_connected_players(lobby: Lobby, current: Option<usize>)
    ensures
        next_turn(lobby, current) matches Some(t) ==> {
            let id = lobby.player_order@[t]@;
            &&& 0 <= t < lobby.player_order@.len()
            &&& lobby.players@.contains_key(id)
            &&& lobby.players@[id].connection is Some
            &&& !(lobby.bowling.players@.contains_key(id) && has_finished(lobby.bowling.players@[id]@))
        },
{
    lemma_first_turn_can_play(lobby, turn_search_start(current), 0);
}

// ---------------------------------------------------------------------------
// The frame shown for the player up
// ---------------------------------------------------------------------------

proof fn lemma_first_open_is(frames: Seq<Seq<u8>>, a: int, from: int)
    requires
        0 <= from <= a <= frames.len(),
        forall|j: int| 0 <= j < a ==> frame_is_complete(j, #[trigger] frames[j]),
        a < frames.len() ==> !frame_is_complete(a, frames[a]),
    ensures
        first_open_frame(frames, from) == a,
    decreases frames.len() - from,
{
    if from < a {
        lemma_first_open_is(frames, a, from + 1);
    }
}

/// The scoreboard's frame for the player up is one more than the index of that
/// player's first incomplete frame (every frame before it complete), at most 10; a
/// player with no frames yet is on frame 1; with nobody up it is 0.
pub proof fn scoreboard_frame_is_first_incomplete(lobby: Lobby, a: int)
    ensures
        ({
            let board = scoreboard_model(lobby);
            match lobby.current_turn {
                Some(t) => if t < lobby.player_order@.len() && lobby.player_order@[t as int]@.len() > 0 {
                    let frames = bowled_frames(lobby, lobby.player_order@[t as int]@);
                    (0 <= a <= frames.len() && (forall|j: int| 0 <= j < a ==> frame_is_complete(j, #[trigger] frames[j]))
                        && (a < frames.len() ==> !frame_is_complete(a, frames[a]))) ==> board.current_frame == (if a
                        < 9 {
                        a + 1
                    } else {
                        10
                    })
                } else {
                    board.current_frame == 0
                },
                None => board.current_frame == 0,
            }
        }),
{
    match lobby.current_turn {
        Some(t) => {
            if t < lobby.player_order@.len() && lobby.player_order@[t as int]@.len() > 0 {
                let frames = bowled_frames(lobby, lobby.player_order@[t as int]@);
                if 0 <= a <= frames.len() && (forall|j: int| 0 <= j < a ==> frame_is_complete(j, #[trigger] frames[j]))
                    && (a < frames.len() ==> !frame_is_complete(a, frames[a])) {
                    lemma_first_open_is(frames, a, 0);
                }
            }
        },
        None => {},
    }
}

// ---------------------------------------------------------------------------
// Reconnecting during a game
// ---------------------------------------------------------------------------

/// A successful player reconnect to a lobby whose game is in progress tells the
/// reconnecting connection first that it is back, and right after that the lobby's
/// current scoreboard; a host reconnect does the same.
pub proof fn reconnect_during_game_sends_scoreboard(
    pre: AppState,
    post: AppState,
    connection: u64,
    code: Seq<char>,
    session: Seq<char>,
    ok: bool,
    out: Seq<OutgoingModel>,
    host: bool,
)
    requires
        if host {
            AppState::reconnects_host(pre, post, connection, code, session, ok, out)
        } else {
            AppState::reconnects_player(pre, post, connection, code, session, ok, out)
        },
        ok,
        pre.lobbies@[code].game_in_progress,
    ensures
        post.lobbies@.contains_key(code),
        out.len() >= 2,
        out[0].recipients == seq![connection],
        if host {
            out[0].message is ReconnectOkHost
        } else {
            out[0].message is ReconnectOkPlayer
        },
        out[1] == send_to(
            connection,
            ServerMessageModel::ScoreboardUpdated { scoreboard: scoreboard_model(post.lobbies@[code]) },
        ),
{
}

} // verus!
