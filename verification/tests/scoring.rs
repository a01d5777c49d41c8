use bowling::scoring::{
    active_frame_index, build_frame_views, continuing_turn_state, frame_complete, frame_marks, player_finished,
    player_frame_number, roll_mark, rotate_player_order, score_frame, subsequent_rolls, FrameRecord,
    PlayerBowlingState,
};

fn frames(rolls: &[&[u8]]) -> PlayerBowlingState {
    PlayerBowlingState { frames: rolls.iter().map(|r| FrameRecord { rolls: r.to_vec() }).collect() }
}

fn totals(state: &PlayerBowlingState) -> Vec<Option<u16>> {
    build_frame_views(state).iter().map(|f| f.cumulative_score).collect()
}

#[test]
fn perfect_game_scores_three_hundred() {
    let state = frames(&[&[10], &[10], &[10], &[10], &[10], &[10], &[10], &[10], &[10], &[10, 10, 10]]);
    let t = totals(&state);
    assert_eq!(t[0], Some(30));
    assert_eq!(t[8], Some(270));
    assert_eq!(t[9], Some(300));
    assert!(player_finished(&state));
    assert_eq!(active_frame_index(&state), 10);
    assert_eq!(player_frame_number(&state), 10);
}

#[test]
fn gutter_game_scores_zero_with_dashes() {
    let rolls: Vec<&[u8]> = vec![&[0, 0]; 10];
    let state = frames(&rolls);
    let views = build_frame_views(&state);
    assert_eq!(views[9].cumulative_score, Some(0));
    assert_eq!(views[0].rolls, vec!["-".to_string(), "-".to_string()]);
    assert!(player_finished(&state));
}

#[test]
fn all_spares_of_five_score_one_hundred_fifty() {
    let mut rolls: Vec<&[u8]> = vec![&[5, 5]; 9];
    rolls.push(&[5, 5, 5]);
    let state = frames(&rolls);
    let t = totals(&state);
    assert_eq!(t[0], Some(15));
    assert_eq!(t[9], Some(150));
    let views = build_frame_views(&state);
    assert_eq!(views[0].rolls, vec!["5".to_string(), "/".to_string()]);
    assert_eq!(views[9].rolls, vec!["5".to_string(), "/".to_string(), "5".to_string()]);
}

#[test]
fn strike_waits_for_two_more_rolls() {
    let state = frames(&[&[10], &[3]]);
    assert_eq!(score_frame(&state.frames, 0), None);
    let state = frames(&[&[10], &[3, 4]]);
    assert_eq!(score_frame(&state.frames, 0), Some(17));
    assert_eq!(score_frame(&state.frames, 1), Some(7));
    assert_eq!(totals(&state)[1], Some(24));
    assert_eq!(totals(&state)[2], None);
}

#[test]
fn spare_waits_for_one_more_roll() {
    let state = frames(&[&[6, 4]]);
    assert_eq!(score_frame(&state.frames, 0), None);
    let state = frames(&[&[6, 4], &[8]]);
    assert_eq!(score_frame(&state.frames, 0), Some(18));
    assert_eq!(score_frame(&state.frames, 1), None);
}

#[test]
fn open_frame_and_missing_frame() {
    let state = frames(&[&[3, 4]]);
    assert_eq!(score_frame(&state.frames, 0), Some(7));
    assert_eq!(score_frame(&state.frames, 1), None);
    assert_eq!(totals(&state), vec![Some(7), None, None, None, None, None, None, None, None, None]);
}

#[test]
fn tenth_frame_scores_its_own_rolls() {
    let mut rolls: Vec<&[u8]> = vec![&[0, 0]; 9];
    rolls.push(&[10, 3, 7]);
    let state = frames(&rolls);
    assert_eq!(score_frame(&state.frames, 9), Some(20));
    let views = build_frame_views(&state);
    assert_eq!(views[9].rolls, vec!["X".to_string(), "3".to_string(), "/".to_string()]);
}

#[test]
fn tenth_frame_marks() {
    let m = |rolls: &[u8]| frame_marks(9, rolls);
    assert_eq!(m(&[10, 10, 10]), vec!["X", "X", "X"]);
    assert_eq!(m(&[10, 10, 4]), vec!["X", "X", "4"]);
    assert_eq!(m(&[10, 0, 10]), vec!["X", "-", "/"]);
    assert_eq!(m(&[7, 3, 10]), vec!["7", "/", "X"]);
    assert_eq!(m(&[7, 3, 0]), vec!["7", "/", "-"]);
    assert_eq!(m(&[7, 2]), vec!["7", "2"]);
    assert_eq!(m(&[]), Vec::<String>::new());
}

#[test]
fn early_frame_marks() {
    assert_eq!(frame_marks(0, &[10]), vec!["X"]);
    assert_eq!(frame_marks(3, &[0, 10]), vec!["-", "/"]);
    assert_eq!(frame_marks(3, &[9]), vec!["9"]);
    assert_eq!(frame_marks(3, &[2, 0]), vec!["2", "-"]);
}

#[test]
fn roll_marks() {
    assert_eq!(roll_mark(0), "-");
    assert_eq!(roll_mark(7), "7");
    assert_eq!(roll_mark(10), "10");
    assert_eq!(roll_mark(255), "255");
}

#[test]
fn frame_completion_rules() {
    let f = |rolls: &[u8]| FrameRecord { rolls: rolls.to_vec() };
    assert!(frame_complete(0, &f(&[10])));
    assert!(!frame_complete(0, &f(&[9])));
    assert!(frame_complete(0, &f(&[9, 0])));
    assert!(!frame_complete(0, &f(&[])));
    assert!(!frame_complete(9, &f(&[10])));
    assert!(!frame_complete(9, &f(&[10, 3])));
    assert!(!frame_complete(9, &f(&[6, 4])));
    assert!(frame_complete(9, &f(&[6, 3])));
    assert!(frame_complete(9, &f(&[6, 4, 1])));
}

#[test]
fn turn_continues_within_a_frame() {
    assert_eq!(continuing_turn_state(0, &[7]), Some((2, 3)));
    assert_eq!(continuing_turn_state(0, &[10]), None);
    assert_eq!(continuing_turn_state(0, &[7, 2]), None);
    assert_eq!(continuing_turn_state(9, &[10]), Some((2, 10)));
    assert_eq!(continuing_turn_state(9, &[4]), Some((2, 6)));
    assert_eq!(continuing_turn_state(9, &[10, 10]), Some((3, 10)));
    assert_eq!(continuing_turn_state(9, &[10, 4]), Some((3, 6)));
    assert_eq!(continuing_turn_state(9, &[6, 4]), Some((3, 10)));
    assert_eq!(continuing_turn_state(9, &[6, 3]), None);
    assert_eq!(continuing_turn_state(9, &[6, 4, 2]), None);
}

#[test]
fn active_frame_and_frame_number() {
    let state = frames(&[&[10], &[3]]);
    assert_eq!(active_frame_index(&state), 1);
    assert_eq!(player_frame_number(&state), 2);
    let state = frames(&[&[10], &[3, 5]]);
    assert_eq!(active_frame_index(&state), 2);
    assert_eq!(player_frame_number(&state), 3);
    let empty = frames(&[]);
    assert_eq!(active_frame_index(&empty), 0);
    assert_eq!(player_frame_number(&empty), 1);
    assert!(!player_finished(&empty));
}

#[test]
fn later_rolls_are_flattened() {
    let state = frames(&[&[10], &[3, 4], &[10], &[1]]);
    assert_eq!(subsequent_rolls(&state.frames, 1), vec![3, 4, 10, 1]);
    assert_eq!(subsequent_rolls(&state.frames, 3), vec![1]);
    assert_eq!(subsequent_rolls(&state.frames, 4), Vec::<u8>::new());
    assert_eq!(subsequent_rolls(&state.frames, 9), Vec::<u8>::new());
}

#[test]
fn rotation_starts_at_the_current_player() {
    let order: Vec<String> = vec!["a".into(), "b".into(), "c".into()];
    assert_eq!(rotate_player_order(&order, 1), vec!["b", "c", "a"]);
    assert_eq!(rotate_player_order(&order, 0), vec!["a", "b", "c"]);
    assert_eq!(rotate_player_order(&order, 5), vec!["c", "a", "b"]);
    assert_eq!(rotate_player_order(&[], 3), Vec::<String>::new());
}

#[test]
fn a_known_frame_score_stays_when_more_rolls_come() {
    let before = frames(&[&[10], &[3, 4], &[5]]);
    assert_eq!(score_frame(&before.frames, 0), Some(17));
    assert_eq!(score_frame(&before.frames, 1), Some(7));
    let after = frames(&[&[10], &[3, 4], &[5, 5], &[10], &[2, 1]]);
    assert_eq!(score_frame(&after.frames, 0), Some(17));
    assert_eq!(score_frame(&after.frames, 1), Some(7));
}
