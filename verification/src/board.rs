use vstd::prelude::*;

use crate::protocol::{
    PlayerInfo, PlayerInfoModel, PlayerScoreModel, PlayerScoreView, ScoreboardModel, ScoreboardState,
    cards_model, frames_model, infos_model,
};
use crate::scoring::{
    PlayerBowlingState, build_frame_views, frame_view_model, has_finished, lemma_running_total_monotone, player_finished,
    player_frame_number, rotate_player_order, running_total, shown_frame_number,
};
use crate::state::{
    Lobby, bowled_frames, can_take_turn, everyone_finished, first_turn_from, next_turn,
    turn_search_start,
};
use crate::text::{decimal_string, decimal_text, owned};

verus! {

// ---------------------------------------------------------------------------
// Lobby member list
// ---------------------------------------------------------------------------

/// How a lobby member is shown.
pub open spec fn member_info(lobby: Lobby, id: Seq<char>) -> PlayerInfoModel {
    PlayerInfoModel {
        player_id: id,
        username: lobby.players@[id].username@,
        connected: lobby.players@[id].connection is Some,
    }
}

/// The members among `ids`, in that order, as shown to clients.
pub open spec fn member_infos(lobby: Lobby, ids: Seq<String>) -> Seq<PlayerInfoModel>
    decreases ids.len(),
{
    if ids.len() == 0 {
        seq![]
    } else {
        let prev = member_infos(lobby, ids.drop_last());
        if lobby.players@.contains_key(ids.last()@) {
            prev.push(member_info(lobby, ids.last()@))
        } else {
            prev
        }
    }
}

/// The member list of a lobby, in turn order.
pub open spec fn lobby_member_infos(lobby: Lobby) -> Seq<PlayerInfoModel> {
    member_infos(lobby, lobby.player_order@)
}

/// The members of a lobby in turn order.
pub fn lobby_players(lobby: &Lobby) -> (r: Vec<PlayerInfo>)
    ensures
        infos_model(r@) == lobby_member_infos(*lobby),
{
    let mut out: Vec<PlayerInfo> = Vec::new();
    let n = lobby.player_order.len();
    let mut i: usize = 0;
    while i < n
        invariant
            n == lobby.player_order@.len(),
            i <= n,
            infos_model(out@) == member_infos(*lobby, lobby.player_order@.subrange(0, i as int)),
        decreases n - i,
    {
        let id = &lobby.player_order[i];
        let ghost prev = out@;
        proof {
            let ids = lobby.player_order@.subrange(0, i + 1);
            assert(ids.drop_last() =~= lobby.player_order@.subrange(0, i as int));
            assert(ids.last() == *id);
        }
        match lobby.players.get(id) {
            Some(p) => {
                out.push(PlayerInfo { player_id: id.clone(), username: p.username.clone(), connected: p.connection.is_some() });
                assert(infos_model(out@) =~= infos_model(prev).push(member_info(*lobby, id@)));
            },
            None => {},
        }
        i = i + 1;
    }
    assert(lobby.player_order@.subrange(0, n as int) =~= lobby.player_order@);
    out
}

// ---------------------------------------------------------------------------
// Scorecards
// ---------------------------------------------------------------------------

/// The label of a player who is still bowling.
pub open spec fn frame_label(frames: Seq<Seq<u8>>) -> Seq<char> {
    "Frame "@ + decimal_text(shown_frame_number(frames) as nat)
}

/// The status shown on a scorecard: `Done` once the player (or, for the player whose
/// turn it is, the game) is over, otherwise the frame being bowled.
pub open spec fn status_text(lobby: Lobby, id: Seq<char>, current: Seq<char>) -> Seq<char> {
    let frames = bowled_frames(lobby, id);
    if id == current {
        if lobby.bowling.game_over {
            "Done"@
        } else {
            frame_label(frames)
        }
    } else if has_finished(frames) {
        "Done"@
    } else {
        frame_label(frames)
    }
}

/// The scorecard of member `id`.
pub open spec fn card_model(lobby: Lobby, id: Seq<char>, current: Seq<char>) -> PlayerScoreModel {
    let frames = bowled_frames(lobby, id);
    PlayerScoreModel {
        player_id: id,
        username: lobby.players@[id].username@,
        total_score: running_total(frames, 9) as u16,
        frames: Seq::new(10, |i: int| frame_view_model(frames, i)),
        status_label: status_text(lobby, id, current),
        finished: has_finished(frames),
    }
}

/// The scorecards of the members among `ids`, in that order.
pub open spec fn cards_for(lobby: Lobby, ids: Seq<String>, current: Seq<char>) -> Seq<PlayerScoreModel>
    decreases ids.len(),
{
    if ids.len() == 0 {
        seq![]
    } else {
        let prev = cards_for(lobby, ids.drop_last(), current);
        if lobby.players@.contains_key(ids.last()@) {
            prev.push(card_model(lobby, ids.last()@, current))
        } else {
            prev
        }
    }
}

/// Whether the running totals of every scorecard of the lobby fit in 16 bits.
pub open spec fn totals_fit(lobby: Lobby) -> bool {
    forall|id: Seq<char>|
        #[trigger] lobby.bowling.players@.contains_key(id) ==> running_total(
            lobby.bowling.players@[id]@,
            9,
        ) <= u16::MAX
}

fn empty_frames() -> (p: PlayerBowlingState)
    ensures
        p@ == Seq::<Seq<u8>>::empty(),
{
    let p = PlayerBowlingState { frames: Vec::new() };
    assert(p@ =~= Seq::<Seq<u8>>::empty());
    p
}

/// The scorecard of a member, or `None` if `player_id` is not a member.
pub fn build_player_score_view(lobby: &Lobby, player_id: &String, current_player_id: &String) -> (r: Option<
    PlayerScoreView,
>)
    requires
        totals_fit(*lobby),
    ensures
        match r {
            Some(card) => lobby.players@.contains_key(player_id@) && card@ == card_model(
                *lobby,
                player_id@,
                current_player_id@,
            ),
            None => !lobby.players@.contains_key(player_id@),
        },
{
    let player = match lobby.players.get(player_id) {
        Some(p) => p,
        None => return None,
    };
    let none_yet = empty_frames();
    let player_state = match lobby.bowling.players.get(player_id) {
        Some(s) => s,
        None => &none_yet,
    };
    let ghost frames = bowled_frames(*lobby, player_id@);
    assert(player_state@ == frames);
    proof {
        if !lobby.bowling.players@.contains_key(player_id@) {
            assert(running_total(frames, 9) == 0) by {
                lemma_no_frames_no_total(frames, 9);
            }
        }
    }
    let frames_views = build_frame_views(player_state);
    proof {
        lemma_running_total_monotone(frames, 9);
    }
    let mut total_score: u16 = 0;
    let mut i: usize = 0;
    while i < 10
        invariant
            i <= 10,
            frames_views@.len() == 10,
            forall|k: int| 0 <= k < 10 ==> (#[trigger] frames_model(frames_views@)[k]) == frame_view_model(frames, k),
            total_score == running_total(frames, i as int - 1),
            running_total(frames, 9) <= u16::MAX,
            forall|a: int, c: int| -1 <= a <= c <= 9 ==> running_total(frames, a) <= running_total(frames, c),
        decreases 10 - i,
    {
        assert(frames_model(frames_views@)[i as int] == frame_view_model(frames, i as int));
        assert(running_total(frames, i as int) <= running_total(frames, 9));
        match frames_views[i].cumulative_score {
            Some(c) => {
                total_score = c;
            },
            None => {},
        }
        i = i + 1;
    }
    let finished = player_finished(player_state);
    let status_label = if *player_id == *current_player_id {
        if lobby.bowling.game_over {
            owned("Done")
        } else {
            frame_label_string(player_state)
        }
    } else if finished {
        owned("Done")
    } else {
        frame_label_string(player_state)
    };
    let card = PlayerScoreView {
        player_id: player_id.clone(),
        username: player.username.clone(),
        total_score,
        frames: frames_views,
        status_label,
        finished,
    };
    assert(card@.frames =~= Seq::new(10, |k: int| frame_view_model(frames, k)));
    Some(card)
}

fn frame_label_string(player_state: &PlayerBowlingState) -> (s: String)
    ensures
        s@ == frame_label(player_state@),
{
    let mut s = owned("Frame ");
    let n = player_frame_number(player_state);
    let digits = decimal_string(n as u64);
    s.append(digits.as_str());
    s
}

proof fn lemma_no_frames_no_total(frames: Seq<Seq<u8>>, i: int)
    requires
        frames.len() == 0,
    ensures
        running_total(frames, i) == 0,
    decreases i + 1,
{
    if i >= 0 {
        lemma_no_frames_no_total(frames, i - 1);
    }
}

// ---------------------------------------------------------------------------
// Scoreboard
// ---------------------------------------------------------------------------

/// The id of the player whose turn it is, or the empty text when there is none.
pub open spec fn current_player_text(lobby: Lobby) -> Seq<char> {
    match lobby.current_turn {
        Some(t) => if t < lobby.player_order@.len() {
            lobby.player_order@[t as int]@
        } else {
            seq![]
        },
        None => seq![],
    }
}

/// The turn order rotated so that it starts with the player whose turn it is.
pub open spec fn rotated_order(lobby: Lobby) -> Seq<String> {
    let n = lobby.player_order@.len() as int;
    let start = match lobby.current_turn {
        Some(t) => t as int,
        None => 0,
    };
    Seq::new(n as nat, |i: int| lobby.player_order@[(start + i) % n])
}

/// The scoreboard of a lobby.
pub open spec fn scoreboard_model(lobby: Lobby) -> ScoreboardModel {
    let current = current_player_text(lobby);
    ScoreboardModel {
        current_player_id: current,
        current_frame: if current.len() == 0 {
            0
        } else if lobby.bowling.players@.contains_key(current) {
            shown_frame_number(lobby.bowling.players@[current]@) as u8
        } else {
            1
        },
        current_roll: lobby.bowling.current_roll,
        pins_remaining: lobby.bowling.pins_remaining,
        players: cards_for(lobby, rotated_order(lobby), current),
        game_over: lobby.bowling.game_over,
    }
}

/// The scoreboard of a lobby: who is up, which frame, roll and pins, and one scorecard
/// per member starting with the player whose turn it is.
pub fn build_scoreboard(lobby: &Lobby) -> (r: ScoreboardState)
    requires
        totals_fit(*lobby),
    ensures
        r@ == scoreboard_model(*lobby),
{
    let current_player_id = match lobby.current_turn {
        Some(idx) => if idx < lobby.player_order.len() {
            lobby.player_order[idx].clone()
        } else {
            String::new()
        },
        None => String::new(),
    };
    let rotation_start = match lobby.current_turn {
        Some(t) => t,
        None => 0,
    };
    let order = lobby.player_order.as_slice();
    let rotated_ids = rotate_player_order(order, rotation_start);
    assert(rotated_ids@ =~= rotated_order(*lobby));
    let mut players: Vec<PlayerScoreView> = Vec::new();
    let n = rotated_ids.len();
    let mut i: usize = 0;
    while i < n
        invariant
            n == rotated_ids@.len(),
            i <= n,
            totals_fit(*lobby),
            cards_model(players@) == cards_for(*lobby, rotated_ids@.subrange(0, i as int), current_player_id@),
        decreases n - i,
    {
        let ghost prev = players@;
        proof {
            let ids = rotated_ids@.subrange(0, i + 1);
            assert(ids.drop_last() =~= rotated_ids@.subrange(0, i as int));
        }
        match build_player_score_view(lobby, &rotated_ids[i], &current_player_id) {
            Some(card) => {
                players.push(card);
                assert(cards_model(players@) =~= cards_model(prev).push(
                    card_model(*lobby, rotated_ids@[i as int]@, current_player_id@),
                ));
            },
            None => {},
        }
        i = i + 1;
    }
    assert(rotated_ids@.subrange(0, n as int) =~= rotated_ids@);
    let current_frame = if current_player_id.as_str().is_empty() {
        0
    } else {
        match lobby.bowling.players.get(&current_player_id) {
            Some(s) => player_frame_number(s),
            None => 1,
        }
    };
    let board = ScoreboardState {
        current_player_id,
        current_frame,
        current_roll: lobby.bowling.current_roll,
        pins_remaining: lobby.bowling.pins_remaining,
        players,
        game_over: lobby.bowling.game_over,
    };
    board
}

// ---------------------------------------------------------------------------
// Turns
// ---------------------------------------------------------------------------

/// The next position after `current`, going round the turn order, whose player is
/// connected and has not finished.
pub fn next_connected_turn_index(lobby: &Lobby, current_turn: Option<usize>) -> (r: Option<usize>)
    ensures
        r matches Some(i) ==> i < lobby.player_order@.len(),
        match r {
            Some(i) => next_turn(*lobby, current_turn) == Some(i as int),
            None => next_turn(*lobby, current_turn) is None,
        },
{
    let n = lobby.player_order.len();
    if n == 0 {
        return None;
    }
    let start = match current_turn {
        Some(idx) => idx.saturating_add(1),
        None => 0,
    };
    assert(start == turn_search_start(current_turn));
    let mut offset: usize = 0;
    while offset < n
        invariant
            n == lobby.player_order@.len(),
            n > 0,
            start == turn_search_start(current_turn),
            offset <= n,
            first_turn_from(*lobby, start as int, 0) == first_turn_from(*lobby, start as int, offset as int),
        decreases n - offset,
    {
        let idx = ((start as u128 + offset as u128) % (n as u128)) as usize;
        let id = &lobby.player_order[idx];
        let eligible = match lobby.players.get(id) {
            Some(player) => {
                let finished = match lobby.bowling.players.get(id) {
                    Some(s) => player_finished(s),
                    None => false,
                };
                player.connection.is_some() && !finished
            },
            None => false,
        };
        assert(eligible == can_take_turn(*lobby, idx as int));
        if eligible {
            assert(first_turn_from(*lobby, start as int, offset as int) == Some(idx as int));
            assert(first_turn_from(*lobby, turn_search_start(current_turn), 0) == Some(idx as int));
            assert(next_turn(*lobby, current_turn) == Some(idx as int));
            return Some(idx);
        }
        assert(first_turn_from(*lobby, start as int, offset as int) == first_turn_from(
            *lobby,
            start as int,
            offset + 1,
        ));
        offset = offset + 1;
    }
    assert(first_turn_from(*lobby, start as int, n as int) is None);
    None
}

/// Whether every player in the turn order has finished the game.
pub fn all_players_finished(lobby: &Lobby) -> (r: bool)
    ensures
        r == everyone_finished(*lobby),
{
    let n = lobby.player_order.len();
    let mut i: usize = 0;
    while i < n
        invariant
            n == lobby.player_order@.len(),
            i <= n,
            forall|j: int|
                0 <= j < i ==> lobby.bowling.players@.contains_key(#[trigger] lobby.player_order@[j]@)
                    && has_finished(lobby.bowling.players@[lobby.player_order@[j]@]@),
        decreases n - i,
    {
        let done = match lobby.bowling.players.get(&lobby.player_order[i]) {
            Some(s) => player_finished(s),
            None => false,
        };
        if !done {
            return false;
        }
        i = i + 1;
    }
    true
}

} // verus!
