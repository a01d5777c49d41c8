use vstd::prelude::*;

use crate::scoring::{PlayerBowlingState, frames_shaped, has_finished};
use crate::strmap::StrMap;

verus! {

/// Where a player session leads: the lobby and the player in it.
pub struct PlayerSessionRef {
    pub code: String,
    pub player_id: String,
}

/// A lobby member. `connection` is the connection the player is reachable on, if any;
/// `disconnected_at` is when that connection was lost (milliseconds on the server clock).
pub struct Player {
    pub username: String,
    pub session: String,
    pub connection: Option<u64>,
    pub disconnected_at: Option<u64>,
}

/// The state of the bowling game of a lobby.
pub struct BowlingState {
    pub players: StrMap<PlayerBowlingState>,
    pub pins_remaining: u8,
    pub current_roll: u8,
    pub game_over: bool,
}

/// A lobby: its host, its players in turn order, and its game.
pub struct Lobby {
    pub host_session: String,
    pub host_connection: Option<u64>,
    pub host_disconnected_at: Option<u64>,
    pub players: StrMap<Player>,
    pub player_order: Vec<String>,
    pub current_turn: Option<usize>,
    pub game_in_progress: bool,
    pub ball_in_play: bool,
    pub bowling: BowlingState,
}

/// Everything the server knows: the lobbies by code and the sessions that lead to them.
pub struct AppState {
    pub lobbies: StrMap<Lobby>,
    pub player_sessions: StrMap<PlayerSessionRef>,
    pub host_sessions: StrMap<String>,
}

/// What a connection has become after a successful create, join or reconnect.
#[derive(Debug, Clone, PartialEq, Eq)]
pub enum ConnectionRole {
    Host { code: String, session: String },
    Player { code: String, session: String },
}

/// The verdict on the floating-point parameters of a throw.
#[derive(Debug, Clone, Copy, PartialEq, Eq)]
pub enum ThrowCheck {
    Valid,
    ForceOutOfRange,
    DirectionNotFinite,
    DirectionNotNormalized,
}

/// The frames a player has bowled in a lobby's game (none if the game does not know them).
pub open spec fn bowled_frames(lobby: Lobby, id: Seq<char>) -> Seq<Seq<u8>> {
    if lobby.bowling.players@.contains_key(id) {
        lobby.bowling.players@[id]@
    } else {
        seq![]
    }
}

/// Whether the player at position `idx` of the turn order may take a turn: a member
/// who is connected and has not finished the game.
pub open spec fn can_take_turn(lobby: Lobby, idx: int) -> bool {
    let id = lobby.player_order@[idx]@;
    &&& lobby.players@.contains_key(id)
    &&& lobby.players@[id].connection is Some
    &&& !(lobby.bowling.players@.contains_key(id) && has_finished(lobby.bowling.players@[id]@))
}

/// Where the search for the next turn starts: after the current turn, or at the front.
pub open spec fn turn_search_start(current: Option<usize>) -> int {
    match current {
        Some(t) => if t == usize::MAX {
            t as int
        } else {
            t + 1
        },
        None => 0,
    }
}

/// The first position, going round from `start` and skipping `offset` places, whose
/// player may take a turn.
pub open spec fn first_turn_from(lobby: Lobby, start: int, offset: int) -> Option<int>
    decreases lobby.player_order@.len() - offset,
{
    let n = lobby.player_order@.len() as int;
    if offset < 0 || offset >= n {
        None
    } else if can_take_turn(lobby, (start + offset) % n) {
        Some((start + offset) % n)
    } else {
        first_turn_from(lobby, start, offset + 1)
    }
}

/// The next turn after `current`: the first position after it, going round, whose player
/// may take a turn.
pub open spec fn next_turn(lobby: Lobby, current: Option<usize>) -> Option<int> {
    first_turn_from(lobby, turn_search_start(current), 0)
}

/// The next turn depends only on the turn order, the members and their records.
pub proof fn lemma_next_turn_depends_on_players(a: Lobby, b: Lobby, current: Option<usize>)
    requires
        a.player_order@ == b.player_order@,
        a.players@ == b.players@,
        a.bowling.players@ == b.bowling.players@,
    ensures
        next_turn(a, current) == next_turn(b, current),
{
    lemma_first_turn_from_same(a, b, turn_search_start(current), 0);
}

proof fn lemma_first_turn_from_same(a: Lobby, b: Lobby, start: int, offset: int)
    requires
        a.player_order@ == b.player_order@,
        a.players@ == b.players@,
        a.bowling.players@ == b.bowling.players@,
    ensures
        first_turn_from(a, start, offset) == first_turn_from(b, start, offset),
    decreases a.player_order@.len() - offset,
{
    let n = a.player_order@.len() as int;
    if 0 <= offset < n {
        lemma_first_turn_from_same(a, b, start, offset + 1);
        assert(can_take_turn(a, (start + offset) % n) == can_take_turn(b, (start + offset) % n));
    }
}

/// A turn found by the search lies within the turn order.
pub proof fn lemma_next_turn_in_order(lobby: Lobby, current: Option<usize>)
    ensures
        next_turn(lobby, current) matches Some(t) ==> 0 <= t < lobby.player_order@.len(),
{
    lemma_first_turn_in_order(lobby, turn_search_start(current), 0);
}

proof fn lemma_first_turn_in_order(lobby: Lobby, start: int, offset: int)
    requires
        start >= 0,
    ensures
        first_turn_from(lobby, start, offset) matches Some(t) ==> 0 <= t < lobby.player_order@.len(),
    decreases lobby.player_order@.len() - offset,
{
    let n = lobby.player_order@.len() as int;
    if 0 <= offset < n {
        lemma_first_turn_in_order(lobby, start, offset + 1);
    }
}

/// Whether `x` stands somewhere in the turn order.
pub open spec fn in_order(order: Seq<String>, x: Seq<char>) -> bool {
    exists|i: int| 0 <= i < order.len() && order[i]@ == x
}

/// Removing `id` from a turn order keeps exactly the other entries, in order.
pub proof fn lemma_order_without(order: Seq<String>, id: Seq<char>)
    ensures
        forall|x: Seq<char>| #[trigger] in_order(order_without(order, id), x) <==> (x != id && in_order(order, x)),
        order_without(order, id).len() <= order.len(),
        (forall|i: int, j: int| 0 <= i < order.len() && 0 <= j < order.len() && i != j ==> order[i]@ != order[j]@)
            ==> (forall|i: int, j: int|
            0 <= i < order_without(order, id).len() && 0 <= j < order_without(order, id).len() && i != j
                ==> order_without(order, id)[i]@ != order_without(order, id)[j]@),
        (forall|j: int| 0 <= j < order.len() ==> order[j]@ != id) ==> order_without(order, id) == order,
        position_from(order, id, 0) is Some && (forall|i: int, j: int|
            0 <= i < order.len() && 0 <= j < order.len() && i != j ==> order[i]@ != order[j]@) ==> order_without(
            order,
            id,
        ).len() == order.len() - 1,
        position_from(order, id, 0) is None <==> (forall|j: int| 0 <= j < order.len() ==> order[j]@ != id),
    decreases order.len(),
{
    lemma_position_from(order, id, 0);
    if order.len() > 0 {
        let prefix = order.drop_last();
        lemma_order_without(prefix, id);
        lemma_position_from(prefix, id, 0);
        let w = order_without(order, id);
        let pw = order_without(prefix, id);
        assert(w == (if order.last()@ == id {
            pw
        } else {
            pw.push(order.last())
        }));
        assert forall|x: Seq<char>| #[trigger] in_order(w, x) <==> (x != id && in_order(order, x)) by {
            if in_order(w, x) {
                let i = choose|i: int| 0 <= i < w.len() && w[i]@ == x;
                if i < pw.len() {
                    assert(pw[i]@ == x);
                    assert(in_order(pw, x));
                    let j = choose|j: int| 0 <= j < prefix.len() && prefix[j]@ == x;
                    assert(order[j]@ == x);
                } else {
                    assert(order[order.len() - 1]@ == x);
                }
            }
            if x != id && in_order(order, x) {
                let j = choose|j: int| 0 <= j < order.len() && order[j]@ == x;
                if j < prefix.len() {
                    assert(prefix[j]@ == x);
                    assert(in_order(prefix, x));
                    assert(in_order(pw, x));
                    let i = choose|i: int| 0 <= i < pw.len() && pw[i]@ == x;
                    assert(w[i]@ == x);
                } else {
                    assert(w[w.len() - 1]@ == x);
                }
            }
        }
        if forall|i: int, j: int| 0 <= i < order.len() && 0 <= j < order.len() && i != j ==> order[i]@ != order[j]@ {
            assert forall|i: int, j: int| 0 <= i < prefix.len() && 0 <= j < prefix.len() && i != j implies prefix[i]@
                != prefix[j]@ by {
                assert(prefix[i] == order[i]);
                assert(prefix[j] == order[j]);
            }
            if order.last()@ != id {
                assert forall|i: int, j: int| 0 <= i < w.len() && 0 <= j < w.len() && i != j implies w[i]@ != w[j]@ by {
                    if i == w.len() - 1 || j == w.len() - 1 {
                        let k = if i == w.len() - 1 {
                            j
                        } else {
                            i
                        };
                        assert(in_order(pw, pw[k]@));
                        let jj = choose|jj: int| 0 <= jj < prefix.len() && prefix[jj]@ == pw[k]@;
                        assert(order[jj] == prefix[jj]);
                        assert(order[order.len() - 1]@ != order[jj]@);
                    }
                }
            }
            if position_from(order, id, 0) is Some {
                if order.last()@ == id {
                    assert forall|j: int| 0 <= j < prefix.len() implies prefix[j]@ != id by {
                        assert(order[j] == prefix[j]);
                    }
                } else {
                    let p = position_from(order, id, 0)->0;
                    assert(order[p]@ == id);
                    assert(p < prefix.len());
                    assert(prefix[p]@ == id);
                }
            }
        }
        if forall|j: int| 0 <= j < order.len() ==> order[j]@ != id {
            assert forall|j: int| 0 <= j < prefix.len() implies prefix[j]@ != id by {
                assert(order[j] == prefix[j]);
            }
            assert(order_without(prefix, id) == prefix);
            assert(order =~= prefix.push(order.last()));
        }
    }
}

/// The first position of `id` at or after `i`, if any, holds `id`, and none before it does.
pub proof fn lemma_position_from(order: Seq<String>, id: Seq<char>, i: int)
    requires
        0 <= i,
    ensures
        position_from(order, id, i) matches Some(p) ==> i <= p < order.len() && order[p]@ == id && forall|
            j: int,
        | i <= j < p ==> order[j]@ != id,
        position_from(order, id, i) is None ==> forall|j: int| i <= j < order.len() ==> order[j]@ != id,
    decreases order.len() - i,
{
    if i < order.len() && order[i]@ != id {
        lemma_position_from(order, id, i + 1);
    }
}

/// Whether every player in the turn order has finished the game.
pub open spec fn everyone_finished(lobby: Lobby) -> bool {
    forall|i: int|
        0 <= i < lobby.player_order@.len() ==> lobby.bowling.players@.contains_key(
            #[trigger] lobby.player_order@[i]@,
        ) && has_finished(lobby.bowling.players@[lobby.player_order@[i]@]@)
}

/// The game of a lobby is in a state that play reaches: at most ten pins standing and
/// every player's frames shaped as play leaves them.
pub open spec fn game_well_formed(lobby: Lobby) -> bool {
    &&& lobby.bowling.pins_remaining <= 10
    &&& forall|id: Seq<char>|
        #[trigger] lobby.bowling.players@.contains_key(id) ==> frames_shaped(lobby.bowling.players@[id]@)
}

/// The members of a lobby and its turn order agree: every member appears exactly once
/// in the order, nobody else does, and the current turn points into the order.
pub open spec fn members_consistent(lobby: Lobby) -> bool {
    let order = lobby.player_order@;
    &&& forall|i: int, j: int| 0 <= i < order.len() && 0 <= j < order.len() && i != j ==> order[i]@ != order[j]@
    &&& forall|i: int| 0 <= i < order.len() ==> #[trigger] lobby.players@.contains_key(order[i]@)
    &&& forall|id: Seq<char>|
        #[trigger] lobby.players@.contains_key(id) ==> exists|i: int| 0 <= i < order.len() && order[i]@ == id
    &&& lobby.current_turn matches Some(t) ==> t < order.len()
}

/// The sessions of the members of a lobby.
pub open spec fn member_sessions(lobby: Lobby) -> Set<Seq<char>> {
    Set::new(
        |s: Seq<char>|
            exists|id: Seq<char>| lobby.players@.contains_key(id) && lobby.players@[id].session@ == s,
    )
}

/// The connections of the players among `entries` that are connected, in order.
pub open spec fn player_connections(entries: Seq<(String, Player)>) -> Seq<u64>
    decreases entries.len(),
{
    if entries.len() == 0 {
        seq![]
    } else {
        let prev = player_connections(entries.drop_last());
        match entries.last().1.connection {
            Some(c) => prev.push(c),
            None => prev,
        }
    }
}

/// The host's connection, if the host is connected.
pub open spec fn host_connections(lobby: Lobby) -> Seq<u64> {
    match lobby.host_connection {
        Some(c) => seq![c],
        None => seq![],
    }
}

/// Everyone a lobby-wide message reaches: the connected players, then the host.
pub open spec fn lobby_recipients(lobby: Lobby) -> Seq<u64> {
    player_connections(lobby.players.entries()) + host_connections(lobby)
}

/// Whether the player whose turn it is, is connected.
pub open spec fn active_player_connected(lobby: Lobby) -> bool {
    match lobby.current_turn {
        Some(t) => t < lobby.player_order@.len() && lobby.players@.contains_key(lobby.player_order@[t as int]@)
            && lobby.players@[lobby.player_order@[t as int]@].connection is Some,
        None => false,
    }
}

/// The first position of `id` in `order` at or after `i`.
pub open spec fn position_from(order: Seq<String>, id: Seq<char>, i: int) -> Option<int>
    decreases order.len() - i,
{
    if i < 0 || i >= order.len() {
        None
    } else if order[i]@ == id {
        Some(i)
    } else {
        position_from(order, id, i + 1)
    }
}

/// The turn order without the player `id`.
pub open spec fn order_without(order: Seq<String>, id: Seq<char>) -> Seq<String>
    decreases order.len(),
{
    if order.len() == 0 {
        seq![]
    } else {
        let prev = order_without(order.drop_last(), id);
        if order.last()@ == id {
            prev
        } else {
            prev.push(order.last())
        }
    }
}

/// The turn after a player left the order: one back if they stood before it, the front
/// if it fell off the end, none if nobody is left.
pub open spec fn turn_after_removal(current: Option<usize>, removed: Option<int>, new_len: int) -> Option<usize> {
    match (current, removed) {
        (Some(t), Some(r)) => if new_len == 0 {
            None
        } else if r < t {
            Some((t - 1) as usize)
        } else if t >= new_len {
            Some(0usize)
        } else {
            Some(t)
        },
        _ => current,
    }
}

impl AppState {
    /// Every lobby's game is in a state that play reaches.
    pub open spec fn well_formed(&self) -> bool {
        forall|code: Seq<char>| #[trigger] self.lobbies@.contains_key(code) ==> game_well_formed(self.lobbies@[code])
    }

    /// The sessions and the lobbies agree, both ways, and every lobby's members and turn
    /// order agree.
    pub open spec fn consistent(&self) -> bool {
        &&& forall|code: Seq<char>|
            #[trigger] self.lobbies@.contains_key(code) ==> members_consistent(self.lobbies@[code])
        &&& forall|s: Seq<char>|
            #[trigger] self.host_sessions@.contains_key(s) ==> self.lobbies@.contains_key(self.host_sessions@[s]@)
                && self.lobbies@[self.host_sessions@[s]@].host_session@ == s
        &&& forall|code: Seq<char>|
            #[trigger] self.lobbies@.contains_key(code) ==> self.host_sessions@.contains_key(
                self.lobbies@[code].host_session@,
            ) && self.host_sessions@[self.lobbies@[code].host_session@]@ == code
        &&& forall|s: Seq<char>|
            #[trigger] self.player_sessions@.contains_key(s) ==> {
                let r = self.player_sessions@[s];
                &&& self.lobbies@.contains_key(r.code@)
                &&& self.lobbies@[r.code@].players@.contains_key(r.player_id@)
                &&& self.lobbies@[r.code@].players@[r.player_id@].session@ == s
            }
        &&& forall|code: Seq<char>, id: Seq<char>|
            self.lobbies@.contains_key(code) && #[trigger] self.lobbies@[code].players@.contains_key(id) ==> {
                let s = self.lobbies@[code].players@[id].session@;
                &&& self.player_sessions@.contains_key(s)
                &&& self.player_sessions@[s].code@ == code
                &&& self.player_sessions@[s].player_id@ == id
            }
    }

    /// The two states hold the same lobbies and sessions.
    pub open spec fn same_as(&self, other: AppState) -> bool {
        &&& self.lobbies@ == other.lobbies@
        &&& self.player_sessions@ == other.player_sessions@
        &&& self.host_sessions@ == other.host_sessions@
    }
}

} // verus!
