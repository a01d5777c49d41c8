use vstd::prelude::*;

use crate::protocol::{FrameScoreModel, FrameScoreView, frames_model, texts_model};
use crate::text::{decimal_string, decimal_text, owned};

verus! {

/// The rolls of one frame, in the order they were bowled.
#[derive(Debug, Clone, PartialEq, Eq, Default)]
pub struct FrameRecord {
    pub rolls: Vec<u8>,
}

/// The frames one player has bowled so far.
#[derive(Debug, Clone, PartialEq, Eq, Default)]
pub struct PlayerBowlingState {
    pub frames: Vec<FrameRecord>,
}

impl View for FrameRecord {
    type V = Seq<u8>;

    open spec fn view(&self) -> Seq<u8> {
        self.rolls@
    }
}

impl View for PlayerBowlingState {
    type V = Seq<Seq<u8>>;

    open spec fn view(&self) -> Seq<Seq<u8>> {
        frames_rolls(self.frames@)
    }
}

/// The rolls of each frame of a list of frame records.
pub open spec fn frames_rolls(frames: Seq<FrameRecord>) -> Seq<Seq<u8>> {
    frames.map_values(|f: FrameRecord| f.rolls@)
}

// ---------------------------------------------------------------------------
// Rules of a frame
// ---------------------------------------------------------------------------

/// Whether frame `frame_index` (counted from 0) needs no more rolls. Frames 0 to 8
/// end after a strike or two rolls; the tenth frame ends after two rolls without a
/// mark, and otherwise after three.
pub open spec fn frame_is_complete(frame_index: int, rolls: Seq<u8>) -> bool {
    if frame_index < 9 {
        (rolls.len() > 0 && rolls[0] == 10) || rolls.len() >= 2
    } else if rolls.len() <= 1 {
        false
    } else if rolls.len() == 2 {
        rolls[0] + rolls[1] < 10 && rolls[0] != 10
    } else {
        true
    }
}

/// The roll number and the standing pins of the next roll of the same turn, or `None`
/// when the turn is over after `rolls`.
pub open spec fn next_roll_state(frame_index: int, rolls: Seq<u8>) -> Option<(u8, u8)> {
    if frame_index < 9 {
        if rolls.len() == 1 && rolls[0] < 10 {
            Some((2u8, (10 - rolls[0]) as u8))
        } else {
            None
        }
    } else if rolls.len() == 1 {
        if rolls[0] == 10 {
            Some((2u8, 10u8))
        } else {
            Some((2u8, (10 - rolls[0]) as u8))
        }
    } else if rolls.len() == 2 {
        if rolls[0] == 10 {
            if rolls[1] == 10 {
                Some((3u8, 10u8))
            } else {
                Some((3u8, (10 - rolls[1]) as u8))
            }
        } else if rolls[0] + rolls[1] == 10 {
            Some((3u8, 10u8))
        } else {
            None
        }
    } else {
        None
    }
}

/// The sum of a list of rolls.
pub open spec fn roll_sum(rolls: Seq<u8>) -> int
    decreases rolls.len(),
{
    if rolls.len() == 0 {
        0
    } else {
        roll_sum(rolls.drop_last()) + rolls.last()
    }
}

/// All rolls of the frames from `start` on, in order.
pub open spec fn rolls_from(frames: Seq<Seq<u8>>, start: int) -> Seq<u8> {
    if start < 0 || start >= frames.len() {
        Seq::empty()
    } else {
        frames.subrange(start, frames.len() as int).flatten()
    }
}

/// The score of frame `i`, once it can be known: a strike counts the next two rolls,
/// a spare the next one, an open frame its own two; the tenth frame counts its own
/// rolls once complete.
pub open spec fn frame_score(frames: Seq<Seq<u8>>, i: int) -> Option<int> {
    if !(0 <= i < frames.len()) {
        None
    } else if i == 9 {
        if frame_is_complete(9, frames[9]) {
            Some(roll_sum(frames[9]))
        } else {
            None
        }
    } else if frames[i].len() == 0 {
        None
    } else if frames[i][0] == 10 {
        let bonus = rolls_from(frames, i + 1);
        if bonus.len() >= 2 {
            Some(10 + bonus[0] + bonus[1])
        } else {
            None
        }
    } else if frames[i].len() < 2 {
        None
    } else if frames[i][0] + frames[i][1] == 10 {
        let bonus = rolls_from(frames, i + 1);
        if bonus.len() >= 1 {
            Some(10 + bonus[0])
        } else {
            None
        }
    } else {
        Some(frames[i][0] + frames[i][1])
    }
}

/// The sum of the known scores of frames 0 to `i`.
pub open spec fn running_total(frames: Seq<Seq<u8>>, i: int) -> int
    decreases i + 1,
{
    if i < 0 {
        0
    } else {
        running_total(frames, i - 1) + match frame_score(frames, i) {
            Some(s) => s,
            None => 0,
        }
    }
}

/// The index of the first frame that still needs rolls, looking from frame `from` on;
/// the number of frames when there is none.
pub open spec fn first_open_frame(frames: Seq<Seq<u8>>, from: int) -> int
    decreases frames.len() - from,
{
    if from < 0 || from >= frames.len() {
        frames.len() as int
    } else if !frame_is_complete(from, frames[from]) {
        from
    } else {
        first_open_frame(frames, from + 1)
    }
}

/// The frame a player bowls next (counted from 0): the first that still needs rolls.
pub open spec fn active_frame(frames: Seq<Seq<u8>>) -> int {
    first_open_frame(frames, 0)
}

/// The frame number (1 to 10) shown for a player.
pub open spec fn shown_frame_number(frames: Seq<Seq<u8>>) -> int {
    if active_frame(frames) < 9 {
        active_frame(frames) + 1
    } else {
        10
    }
}

/// Whether a player has completed all ten frames.
pub open spec fn has_finished(frames: Seq<Seq<u8>>) -> bool {
    frames.len() >= 10 && frame_is_complete(9, frames[9])
}

/// A frame as play can leave it: at least one roll, at most two (three in the tenth
/// frame), none above ten pins.
pub open spec fn frame_shaped(frame_index: int, rolls: Seq<u8>) -> bool {
    &&& rolls.len() >= 1
    &&& if frame_index < 9 {
        rolls.len() <= 2
    } else {
        rolls.len() <= 3
    }
    &&& forall|k: int| 0 <= k < rolls.len() ==> #[trigger] rolls[k] <= 10
}

/// The frames of a player as play can leave them: at most ten, each shaped, and every
/// frame but the last complete.
pub open spec fn frames_shaped(frames: Seq<Seq<u8>>) -> bool {
    &&& frames.len() <= 10
    &&& forall|i: int| 0 <= i < frames.len() ==> frame_shaped(i, #[trigger] frames[i])
    &&& forall|i: int| 0 <= i < frames.len() - 1 ==> frame_is_complete(i, #[trigger] frames[i])
}

/// The frames after one more roll of `pins` pins in the active frame.
pub open spec fn with_roll(frames: Seq<Seq<u8>>, pins: u8) -> Seq<Seq<u8>> {
    let a = active_frame(frames);
    if a >= frames.len() {
        frames.push(seq![pins])
    } else {
        frames.update(a, frames[a].push(pins))
    }
}

// ---------------------------------------------------------------------------
// Marks shown on the scorecard
// ---------------------------------------------------------------------------

/// The mark of a roll that is neither strike nor spare: `-` for no pins, else the count.
pub open spec fn roll_mark_text(pins: u8) -> Seq<char> {
    if pins == 0 {
        seq!['-']
    } else {
        decimal_text(pins as nat)
    }
}

/// The mark of a roll that may be a strike.
pub open spec fn strike_or_count(pins: u8) -> Seq<char> {
    if pins == 10 {
        seq!['X']
    } else {
        roll_mark_text(pins)
    }
}

/// The mark of the second of two rolls on the same rack.
pub open spec fn spare_or_count(first: u8, second: u8) -> Seq<char> {
    if first + second == 10 {
        seq!['/']
    } else {
        roll_mark_text(second)
    }
}

/// The marks of frame `frame_index`: `X` for a strike, `/` for a spare, `-` for a miss.
pub open spec fn frame_mark_texts(frame_index: int, rolls: Seq<u8>) -> Seq<Seq<char>> {
    if rolls.len() == 0 {
        seq![]
    } else if frame_index < 9 {
        if rolls[0] == 10 {
            seq![seq!['X']]
        } else if rolls.len() == 1 {
            seq![roll_mark_text(rolls[0])]
        } else {
            seq![roll_mark_text(rolls[0]), spare_or_count(rolls[0], rolls[1])]
        }
    } else {
        let first = strike_or_count(rolls[0]);
        let second = if rolls[0] == 10 {
            strike_or_count(rolls[1])
        } else {
            spare_or_count(rolls[0], rolls[1])
        };
        let third = if rolls[0] == 10 {
            if rolls[1] == 10 {
                strike_or_count(rolls[2])
            } else {
                spare_or_count(rolls[1], rolls[2])
            }
        } else if rolls[0] + rolls[1] == 10 {
            strike_or_count(rolls[2])
        } else {
            roll_mark_text(rolls[2])
        };
        if rolls.len() == 1 {
            seq![first]
        } else if rolls.len() == 2 {
            seq![first, second]
        } else {
            seq![first, second, third]
        }
    }
}

/// The scorecard line of frame `i` of a player.
pub open spec fn frame_view_model(frames: Seq<Seq<u8>>, i: int) -> FrameScoreModel {
    FrameScoreModel {
        rolls: if i < frames.len() {
            frame_mark_texts(i, frames[i])
        } else {
            seq![]
        },
        cumulative_score: match frame_score(frames, i) {
            Some(_) => Some(running_total(frames, i) as u16),
            None => None,
        },
    }
}

// ---------------------------------------------------------------------------
// Executable rules
// ---------------------------------------------------------------------------

/// Whether a frame needs no more rolls.
pub fn frame_complete(frame_index: usize, frame: &FrameRecord) -> (r: bool)
    ensures
        r == frame_is_complete(frame_index as int, frame@),
{
    let n = frame.rolls.len();
    if frame_index < 9 {
        (n > 0 && frame.rolls[0] == 10) || n >= 2
    } else if n <= 1 {
        false
    } else if n == 2 {
        let first = frame.rolls[0] as u16;
        let second = frame.rolls[1] as u16;
        first + second < 10 && first != 10
    } else {
        true
    }
}

/// What comes after the rolls of a frame within the same turn: the next roll number and
/// the pins standing for it, or `None` when the turn is over.
pub fn continuing_turn_state(frame_index: usize, rolls: &[u8]) -> (r: Option<(u8, u8)>)
    requires
        frame_index >= 9 && rolls@.len() == 1 ==> rolls@[0] <= 10,
        frame_index >= 9 && rolls@.len() == 2 && rolls@[0] == 10 ==> rolls@[1] <= 10,
    ensures
        r == next_roll_state(frame_index as int, rolls@),
{
    let n = rolls.len();
    if frame_index < 9 {
        if n == 1 && rolls[0] < 10 {
            return Some((2, 10 - rolls[0]));
        }
        return None;
    }
    if n == 1 {
        let first = rolls[0];
        if first == 10 {
            Some((2, 10))
        } else {
            Some((2, 10 - first))
        }
    } else if n == 2 {
        let first = rolls[0];
        let second = rolls[1];
        if first == 10 {
            if second == 10 {
                Some((3, 10))
            } else {
                Some((3, 10 - second))
            }
        } else if first as u16 + second as u16 == 10 {
            Some((3, 10))
        } else {
            None
        }
    } else {
        None
    }
}

/// All rolls of the frames from `start_index` on, in order.
pub fn subsequent_rolls(frames: &[FrameRecord], start_index: usize) -> (r: Vec<u8>)
    ensures
        r@ == rolls_from(frames_rolls(frames@), start_index as int),
{
    let ghost all = frames_rolls(frames@);
    let mut rolls: Vec<u8> = Vec::new();
    let n = frames.len();
    if start_index >= n {
        return rolls;
    }
    let mut i = start_index;
    assert(all.subrange(start_index as int, start_index as int) =~= Seq::<Seq<u8>>::empty());
    while i < n
        invariant
            n == frames@.len(),
            all == frames_rolls(frames@),
            start_index <= i <= n,
            rolls@ == all.subrange(start_index as int, i as int).flatten(),
        decreases n - i,
    {
        let frame = &frames[i];
        let mut j: usize = 0;
        let ghost before = rolls@;
        while j < frame.rolls.len()
            invariant
                rolls@ == before + frame.rolls@.subrange(0, j as int),
                j <= frame.rolls@.len(),
            decreases frame.rolls@.len() - j,
        {
            rolls.push(frame.rolls[j]);
            j = j + 1;
        }
        proof {
            assert(frame.rolls@.subrange(0, j as int) =~= all[i as int]);
            let prefix = all.subrange(start_index as int, i as int);
            assert(all.subrange(start_index as int, i + 1) =~= prefix.push(all[i as int]));
            prefix.lemma_flatten_push(all[i as int]);
        }
        i = i + 1;
    }
    rolls
}

/// The sum of the rolls of a frame.
fn frame_roll_sum(rolls: &[u8]) -> (s: u16)
    requires
        roll_sum(rolls@) <= u16::MAX,
    ensures
        s == roll_sum(rolls@),
{
    let mut total: u16 = 0;
    let mut i: usize = 0;
    while i < rolls.len()
        invariant
            i <= rolls@.len(),
            total == roll_sum(rolls@.subrange(0, i as int)),
            roll_sum(rolls@) <= u16::MAX,
        decreases rolls@.len() - i,
    {
        proof {
            lemma_roll_sum_prefix(rolls@, i as int + 1);
            assert(rolls@.subrange(0, i + 1).drop_last() =~= rolls@.subrange(0, i as int));
        }
        total = total + rolls[i] as u16;
        i = i + 1;
    }
    assert(rolls@.subrange(0, i as int) =~= rolls@);
    total
}

/// The score of frame `frame_index`, or `None` while it depends on rolls not yet bowled.
pub fn score_frame(frames: &[FrameRecord], frame_index: usize) -> (r: Option<u16>)
    requires
        frame_index == 9 && frame_index < frames@.len() && frame_is_complete(9, frames@[9]@) ==> roll_sum(
            frames@[9]@,
        ) <= u16::MAX,
    ensures
        r == (match frame_score(frames_rolls(frames@), frame_index as int) {
            Some(s) => Some(s as u16),
            None => None::<u16>,
        }),
{
    if frame_index >= frames.len() {
        return None;
    }
    let frame = &frames[frame_index];
    assert(frames_rolls(frames@)[frame_index as int] == frame.rolls@);
    if frame_index == 9 {
        if frame_complete(frame_index, frame) {
            return Some(frame_roll_sum(frame.rolls.as_slice()));
        }
        return None;
    }
    if frame.rolls.len() == 0 {
        return None;
    }
    let first = frame.rolls[0];
    if first == 10 {
        let bonuses = subsequent_rolls(frames, frame_index + 1);
        if bonuses.len() >= 2 {
            return Some(10 + bonuses[0] as u16 + bonuses[1] as u16);
        }
        return None;
    }
    if frame.rolls.len() < 2 {
        return None;
    }
    let second = frame.rolls[1];
    if first as u16 + second as u16 == 10 {
        let bonuses = subsequent_rolls(frames, frame_index + 1);
        if bonuses.len() >= 1 {
            return Some(10 + bonuses[0] as u16);
        }
        return None;
    }
    Some(first as u16 + second as u16)
}

/// The frame a player bowls next (counted from 0): the first that still needs rolls,
/// or the number of frames when all are complete.
pub fn active_frame_index(player_state: &PlayerBowlingState) -> (r: usize)
    ensures
        r == active_frame(player_state@),
        r <= player_state@.len(),
        forall|j: int| 0 <= j < r ==> frame_is_complete(j, #[trigger] player_state@[j]),
        r < player_state@.len() ==> !frame_is_complete(r as int, player_state@[r as int]),
{
    let ghost all = player_state@;
    let n = player_state.frames.len();
    let mut i: usize = 0;
    while i < n
        invariant
            n == all.len(),
            all == player_state@,
            i <= n,
            first_open_frame(all, 0) == first_open_frame(all, i as int),
            forall|j: int| 0 <= j < i ==> frame_is_complete(j, #[trigger] all[j]),
        decreases n - i,
    {
        assert(all[i as int] == player_state.frames@[i as int].rolls@);
        if !frame_complete(i, &player_state.frames[i]) {
            return i;
        }
        i = i + 1;
    }
    i
}

/// The frame number (1 to 10) shown for a player.
pub fn player_frame_number(player_state: &PlayerBowlingState) -> (r: u8)
    ensures
        r == shown_frame_number(player_state@),
        1 <= r <= 10,
{
    let active = active_frame_index(player_state);
    let active_frame = if active < 9 {
        active
    } else {
        9
    };
    (active_frame + 1) as u8
}

/// Whether a player has completed all ten frames.
pub fn player_finished(player_state: &PlayerBowlingState) -> (r: bool)
    ensures
        r == has_finished(player_state@),
{
    if player_state.frames.len() >= 10 {
        assert(player_state@[9] == player_state.frames@[9].rolls@);
        frame_complete(9, &player_state.frames[9])
    } else {
        false
    }
}

/// The mark of a roll that is neither a strike nor a spare.
pub fn roll_mark(pins: u8) -> (r: String)
    ensures
        r@ == roll_mark_text(pins),
{
    if pins == 0 {
        proof {
            reveal_strlit("-");
        }
        owned("-")
    } else {
        decimal_string(pins as u64)
    }
}

fn strike_mark() -> (r: String)
    ensures
        r@ == seq!['X'],
{
    proof {
        reveal_strlit("X");
    }
    owned("X")
}

fn spare_mark() -> (r: String)
    ensures
        r@ == seq!['/'],
{
    proof {
        reveal_strlit("/");
    }
    owned("/")
}

fn strike_or_count_mark(pins: u8) -> (r: String)
    ensures
        r@ == strike_or_count(pins),
{
    if pins == 10 {
        strike_mark()
    } else {
        roll_mark(pins)
    }
}

fn spare_or_count_mark(first: u8, second: u8) -> (r: String)
    ensures
        r@ == spare_or_count(first, second),
{
    if first as u16 + second as u16 == 10 {
        spare_mark()
    } else {
        roll_mark(second)
    }
}

/// The marks shown for a frame.
pub fn frame_marks(frame_index: usize, rolls: &[u8]) -> (r: Vec<String>)
    ensures
        texts_model(r@) == frame_mark_texts(frame_index as int, rolls@),
{
    let mut marks: Vec<String> = Vec::new();
    let n = rolls.len();
    if n == 0 {
        assert(texts_model(marks@) =~= frame_mark_texts(frame_index as int, rolls@));
        return marks;
    }
    if frame_index < 9 {
        if rolls[0] == 10 {
            marks.push(strike_mark());
        } else {
            marks.push(roll_mark(rolls[0]));
            if n >= 2 {
                marks.push(spare_or_count_mark(rolls[0], rolls[1]));
            }
        }
        assert(texts_model(marks@) =~= frame_mark_texts(frame_index as int, rolls@));
        return marks;
    }
    let first = rolls[0];
    marks.push(strike_or_count_mark(first));
    if n >= 2 {
        let second = rolls[1];
        if first == 10 {
            marks.push(strike_or_count_mark(second));
        } else {
            marks.push(spare_or_count_mark(first, second));
        }
    }
    if n >= 3 {
        let second = rolls[1];
        let third = rolls[2];
        if first == 10 {
            if second == 10 {
                marks.push(strike_or_count_mark(third));
            } else {
                marks.push(spare_or_count_mark(second, third));
            }
        } else if first as u16 + second as u16 == 10 {
            marks.push(strike_or_count_mark(third));
        } else {
            marks.push(roll_mark(third));
        }
    }
    assert(texts_model(marks@) =~= frame_mark_texts(frame_index as int, rolls@));
    marks
}

/// The ten scorecard lines of a player: the marks of each frame and, once it is known,
/// the running total through that frame.
pub fn build_frame_views(player_state: &PlayerBowlingState) -> (views: Vec<FrameScoreView>)
    requires
        running_total(player_state@, 9) <= u16::MAX,
    ensures
        views@.len() == 10,
        forall|i: int| 0 <= i < 10 ==> (#[trigger] frames_model(views@)[i]) == frame_view_model(player_state@, i),
{
    let ghost frames = player_state@;
    let mut views: Vec<FrameScoreView> = Vec::with_capacity(10);
    let mut running: u16 = 0;
    let mut frame_index: usize = 0;
    proof {
        lemma_running_total_monotone(frames, 9);
    }
    while frame_index < 10
        invariant
            frames == player_state@,
            frame_index <= 10,
            views@.len() == frame_index,
            running == running_total(frames, frame_index as int - 1),
            running_total(frames, 9) <= u16::MAX,
            forall|a: int, b: int| -1 <= a <= b <= 9 ==> running_total(frames, a) <= running_total(frames, b),
            forall|i: int| 0 <= i < frame_index ==> (#[trigger] frames_model(views@)[i]) == frame_view_model(frames, i),
        decreases 10 - frame_index,
    {
        let present = frame_index < player_state.frames.len();
        let rolls = if present {
            assert(frames[frame_index as int] == player_state.frames@[frame_index as int].rolls@);
            frame_marks(frame_index, player_state.frames[frame_index].rolls.as_slice())
        } else {
            Vec::new()
        };
        proof {
            lemma_score_bounded_by_total(frames, frame_index as int);
        }
        let frame_score = if present {
            score_frame(player_state.frames.as_slice(), frame_index)
        } else {
            None
        };
        let cumulative_score = match frame_score {
            Some(score) => {
                running = running + score;
                Some(running)
            },
            None => None,
        };
        let ghost prev = views@;
        views.push(FrameScoreView { rolls, cumulative_score });
        proof {
            assert(present ==> texts_model(views@[frame_index as int].rolls@) == frame_mark_texts(
                frame_index as int,
                frames[frame_index as int],
            ));
            assert(!present ==> texts_model(views@[frame_index as int].rolls@) =~= Seq::<Seq<char>>::empty());
            assert forall|i: int| 0 <= i < frame_index + 1 implies (#[trigger] frames_model(views@)[i])
                == frame_view_model(frames, i) by {
                if i < frame_index {
                    assert(views@[i] == prev[i]);
                    assert(frames_model(prev)[i] == frame_view_model(frames, i));
                }
            }
        }
        frame_index = frame_index + 1;
    }
    views
}

/// The turn order starting from position `start`, wrapping around.
pub fn rotate_player_order(order: &[String], start: usize) -> (rotated: Vec<String>)
    ensures
        rotated@.len() == order@.len(),
        forall|i: int|
            0 <= i < order@.len() ==> #[trigger] rotated@[i] == order@[(start + i) % (order@.len() as int)],
{
    let n = order.len();
    let mut rotated: Vec<String> = Vec::new();
    if n == 0 {
        return rotated;
    }
    let mut offset: usize = 0;
    while offset < n
        invariant
            n == order@.len(),
            n > 0,
            offset <= n,
            rotated@.len() == offset,
            forall|i: int| 0 <= i < offset ==> #[trigger] rotated@[i] == order@[(start + i) % (n as int)],
        decreases n - offset,
    {
        let idx = ((start as u128 + offset as u128) % (n as u128)) as usize;
        rotated.push(order[idx].clone());
        offset = offset + 1;
    }
    rotated
}

// ---------------------------------------------------------------------------
// Lemmas
// ---------------------------------------------------------------------------

/// The sum of a prefix of rolls is at most the sum of all of them.
pub proof fn lemma_roll_sum_prefix(rolls: Seq<u8>, k: int)
    requires
        0 <= k <= rolls.len(),
    ensures
        roll_sum(rolls.subrange(0, k)) <= roll_sum(rolls),
    decreases rolls.len() - k,
{
    if k < rolls.len() {
        lemma_roll_sum_prefix(rolls, k + 1);
        assert(rolls.subrange(0, k + 1).drop_last() =~= rolls.subrange(0, k));
    } else {
        assert(rolls.subrange(0, k) =~= rolls);
    }
}

/// Running totals never decrease.
pub proof fn lemma_running_total_monotone(frames: Seq<Seq<u8>>, b: int)
    ensures
        forall|a: int, c: int| -1 <= a <= c <= b ==> running_total(frames, a) <= running_total(frames, c),
    decreases b + 1,
{
    if b >= 0 {
        lemma_running_total_monotone(frames, b - 1);
        lemma_frame_score_nonnegative(frames, b);
        assert(running_total(frames, b - 1) <= running_total(frames, b));
        assert forall|a: int, c: int| -1 <= a <= c <= b implies running_total(frames, a) <= running_total(
            frames,
            c,
        ) by {
            if c < b {
            } else if a < b {
                assert(running_total(frames, a) <= running_total(frames, b - 1));
            }
        }
    }
}

proof fn lemma_frame_score_nonnegative(frames: Seq<Seq<u8>>, i: int)
    ensures
        match frame_score(frames, i) {
            Some(s) => s >= 0,
            None => true,
        },
{
    if 0 <= i < frames.len() && i == 9 {
        lemma_roll_sum_nonnegative(frames[9]);
    }
}

proof fn lemma_roll_sum_nonnegative(rolls: Seq<u8>)
    ensures
        roll_sum(rolls) >= 0,
    decreases rolls.len(),
{
    if rolls.len() > 0 {
        lemma_roll_sum_nonnegative(rolls.drop_last());
    }
}

/// A known frame score is at most the running total through the tenth frame, and the
/// running total through frame `i` is at most that total too.
proof fn lemma_score_bounded_by_total(frames: Seq<Seq<u8>>, i: int)
    requires
        0 <= i <= 9,
    ensures
        match frame_score(frames, i) {
            Some(s) => running_total(frames, i - 1) + s == running_total(frames, i),
            None => running_total(frames, i - 1) == running_total(frames, i),
        },
        running_total(frames, i) <= running_total(frames, 9),
        i == 9 && i < frames.len() && frame_is_complete(9, frames[9]) ==> roll_sum(frames[9])
            <= running_total(frames, 9),
{
    lemma_running_total_monotone(frames, 9);
    lemma_running_total_monotone(frames, i);
    assert(running_total(frames, -1) == 0);
    assert(running_total(frames, 8) >= 0);
}

} // verus!
