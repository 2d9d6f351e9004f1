use puyopuyo::field::{Field, FieldState, OJAMA_COUNT};
use puyopuyo::game_statics::{Ojama, Player1, Reset, Transition, TransitionEvent};
use puyopuyo::grid::{get_cell, set_cell, OJAMA, WALL};
use puyopuyo::keys::KeyResource;
use puyopuyo::rng::NextRngResource;
use puyopuyo::steps::{FieldEffect, ScoreText};

fn started_field() -> (Field, NextRngResource<Player1>) {
    let mut f = Field::new();
    let mut rng = NextRngResource::<Player1>::new();
    f.receive_reset(&mut rng, &Reset(7));
    assert!(f.field_state == FieldState::Init);
    let keys = KeyResource::<Player1>::new();
    match f.update(&keys, &mut rng, false) {
        FieldEffect::Started { next } => {
            assert!(1 <= next.0 && next.0 <= 4 && 1 <= next.1 && next.1 <= 4);
        }
        _ => panic!("expected a started field"),
    }
    assert!(f.field_state == FieldState::Wait);
    (f, rng)
}

#[test]
fn init_builds_walls_and_waits() {
    let (f, _) = started_field();
    assert_eq!(get_cell(&f.arrange, 0, 3), WALL);
    assert_eq!(get_cell(&f.arrange, 4, 0), WALL);
    assert_eq!(get_cell(&f.arrange, 4, 4), 0);
    assert_eq!(f.score, 0);
    assert_eq!(f.ojama_count, OJAMA_COUNT);
    assert_eq!(f.elapsed_frame, 0);
}

#[test]
fn waiting_field_does_not_count_frames() {
    let (mut f, mut rng) = started_field();
    let keys = KeyResource::<Player1>::new();
    let before = f.elapsed_frame;
    match f.update(&keys, &mut rng, false) {
        FieldEffect::Nothing => {}
        _ => panic!("a waiting field does nothing"),
    }
    assert_eq!(f.elapsed_frame, before);
}

#[test]
fn start_brings_the_first_pair() {
    let (mut f, mut rng) = started_field();
    let next = f.next_color_idx;
    f.receive_transition(0, &TransitionEvent { player_id: -1, transition: Transition::Start });
    assert!(f.field_state == FieldState::Next);
    let keys = KeyResource::<Player1>::new();
    match f.update(&keys, &mut rng, false) {
        FieldEffect::NewPair { .. } => {}
        _ => panic!("expected a new pair"),
    }
    assert!(f.field_state == FieldState::Move);
    assert_eq!(f.moving_line, 3);
    assert_eq!(f.moving_y, 520);
    assert_eq!(f.moving_dir_idx, 0);
    assert_eq!(f.moving_color_idx, next);
    assert_eq!(f.line_dan, vec![22, 1, 1, 1, 1, 1, 1, 22]);
}

#[test]
fn finish_lost_by_the_other_player_wins() {
    let (mut f, _) = started_field();
    f.receive_transition(0, &TransitionEvent { player_id: 0, transition: Transition::Finish });
    assert!(f.field_state == FieldState::Wait);
    f.receive_transition(0, &TransitionEvent { player_id: 1, transition: Transition::Finish });
    assert!(f.field_state == FieldState::Win);
}

#[test]
fn a_full_spawn_cell_loses() {
    let (mut f, mut rng) = started_field();
    set_cell(&mut f.arrange, 3, 12, 2);
    f.field_state = FieldState::Next;
    let frames = f.elapsed_frame;
    let keys = KeyResource::<Player1>::new();
    match f.update(&keys, &mut rng, false) {
        FieldEffect::Lost => {}
        _ => panic!("expected a loss"),
    }
    assert!(f.field_state == FieldState::Lose);
    assert_eq!(f.elapsed_frame, frames);
    match f.update(&keys, &mut rng, false) {
        FieldEffect::Died => {}
        _ => panic!("expected a death"),
    }
    assert!(f.field_state == FieldState::LoseFall);
    let frames = f.elapsed_frame;
    for _ in 0..3 {
        match f.update(&keys, &mut rng, false) {
            FieldEffect::Nothing => {}
            _ => panic!("a fallen field reports nothing"),
        }
    }
    assert!(f.field_state == FieldState::LoseFall);
    assert_eq!(f.elapsed_frame, frames + 3);
}

fn playing_field() -> (Field, NextRngResource<Player1>) {
    let (mut f, mut rng) = started_field();
    f.receive_transition(0, &TransitionEvent { player_id: -1, transition: Transition::Start });
    let keys = KeyResource::<Player1>::new();
    let _ = f.update(&keys, &mut rng, false);
    (f, rng)
}

#[test]
fn pair_falls_one_step_every_fall_count_frames() {
    let (mut f, mut rng) = playing_field();
    let keys = KeyResource::<Player1>::new();
    for _ in 0..19 {
        let _ = f.update(&keys, &mut rng, false);
    }
    assert_eq!(f.moving_y, 520);
    let _ = f.update(&keys, &mut rng, false);
    assert_eq!(f.moving_y, 500);
}

#[test]
fn held_down_drops_the_pair_and_scores() {
    let (mut f, mut rng) = playing_field();
    let mut keys = KeyResource::<Player1>::new();
    keys.down = true;
    let mut fixed = None;
    for _ in 0..100 {
        match f.update(&keys, &mut rng, false) {
            FieldEffect::Fixed { primary, secondary } => {
                fixed = Some((primary, secondary));
                break;
            }
            _ => {}
        }
    }
    let (primary, secondary) = fixed.expect("the pair lands");
    assert_eq!(primary, (3, 1));
    assert_eq!(secondary, (3, 2));
    assert_eq!(get_cell(&f.arrange, 3, 1), f.moving_color_idx.0);
    assert_eq!(get_cell(&f.arrange, 3, 2), f.moving_color_idx.1);
    assert!(f.field_state == FieldState::FallCheck);
    assert!(f.score > 0);
}

#[test]
fn walls_stop_the_pair() {
    let (mut f, mut rng) = playing_field();
    let mut keys = KeyResource::<Player1>::new();
    for _ in 0..5 {
        keys.just_left = true;
        let _ = f.update(&keys, &mut rng, false);
    }
    assert_eq!(f.moving_line, 1);
    keys.just_left = false;
    for _ in 0..8 {
        keys.just_right = true;
        let _ = f.update(&keys, &mut rng, false);
    }
    assert_eq!(f.moving_line, 6);
}

#[test]
fn turning_clockwise_goes_round() {
    let (mut f, mut rng) = playing_field();
    let mut keys = KeyResource::<Player1>::new();
    keys.just_rot_r = true;
    let _ = f.update(&keys, &mut rng, false);
    assert_eq!(f.moving_dir_idx, 1);
    assert_eq!(f.moving_prev_dir_idx, 0);
    assert_eq!(f.moving_rot_count, 2);
    let _ = f.update(&keys, &mut rng, false);
    assert_eq!(f.moving_dir_idx, 2);
    let _ = f.update(&keys, &mut rng, false);
    assert_eq!(f.moving_dir_idx, 3);
    let _ = f.update(&keys, &mut rng, false);
    assert_eq!(f.moving_dir_idx, 0);
}

#[test]
fn turning_at_the_right_wall_steps_left() {
    let (mut f, mut rng) = playing_field();
    let mut keys = KeyResource::<Player1>::new();
    for _ in 0..4 {
        keys.just_right = true;
        let _ = f.update(&keys, &mut rng, false);
    }
    assert_eq!(f.moving_line, 6);
    let mut keys = KeyResource::<Player1>::new();
    keys.just_rot_r = true;
    let _ = f.update(&keys, &mut rng, false);
    assert_eq!(f.moving_dir_idx, 1);
    assert_eq!(f.moving_line, 5);
}

#[test]
fn a_chain_scores_and_sends_garbage() {
    let (mut f, mut rng) = playing_field();
    for j in 1..=4 {
        set_cell(&mut f.arrange, 2, j, 1);
    }
    for j in 1..=4 {
        set_cell(&mut f.arrange, 3, j, 2);
    }
    f.field_state = FieldState::DeleteCheck;
    f.rensa_num = 0;
    let keys = KeyResource::<Player1>::new();
    match f.update(&keys, &mut rng, false) {
        FieldEffect::Cleared { cells } => assert_eq!(cells.len(), 8),
        _ => panic!("expected cleared cells"),
    }
    assert!(f.field_state == FieldState::Delete);
    assert_eq!(f.base_score, 80);
    assert_eq!(f.bonus_multiply, 3);
    assert!(f.ui_text() == ScoreText::Chain(80, 3));
    let score0 = f.score;
    let mut sent = None;
    for _ in 0..50 {
        match f.update(&keys, &mut rng, false) {
            FieldEffect::SendOjama { num } => {
                sent = Some(num);
                break;
            }
            _ => {}
        }
    }
    assert_eq!(f.score, score0 + 240);
    assert_eq!(sent, Some((score0 + 240) / 70));
    assert!(f.field_state == FieldState::FallCheck);
    assert!(f.ui_text() == ScoreText::Score(f.score));
}

#[test]
fn confirmed_garbage_drops_in() {
    let (mut f, mut rng) = playing_field();
    f.kakutei_ojama = 8;
    f.field_state = FieldState::OjamaFallCheck;
    let frame = f.elapsed_frame;
    let keys = KeyResource::<Player1>::new();
    match f.update(&keys, &mut rng, false) {
        FieldEffect::ConfirmOjama { frame: fr, drops } => {
            assert_eq!(fr, frame);
            assert_eq!(drops.len(), 8);
        }
        _ => panic!("expected garbage"),
    }
    assert_eq!(f.kakutei_ojama, 0);
    assert!(f.field_state == FieldState::OjamaFall);
    let mut total = 0;
    for i in 1..=6 {
        let mut n = 0;
        for j in 1..=3 {
            if get_cell(&f.arrange, i, j) == OJAMA {
                n += 1;
            }
        }
        assert!(n == 1 || n == 2);
        total += n;
    }
    assert_eq!(total, 8);
    let _ = f.update(&keys, &mut rng, true);
    assert!(f.field_state == FieldState::Next);
}

#[test]
fn garbage_is_limited_by_room() {
    let (mut f, mut rng) = playing_field();
    for j in 1..=12 {
        set_cell(&mut f.arrange, 1, j, 6);
    }
    f.kakutei_ojama = 40;
    f.field_state = FieldState::OjamaFallCheck;
    let keys = KeyResource::<Player1>::new();
    let _ = f.update(&keys, &mut rng, false);
    // column 1 has no room left: 25 of the 30 dropped, 15 still owed
    assert_eq!(f.kakutei_ojama, 15);
}

#[test]
fn no_garbage_goes_on_to_the_next_pair() {
    let (mut f, mut rng) = playing_field();
    f.field_state = FieldState::OjamaFallCheck;
    let keys = KeyResource::<Player1>::new();
    match f.update(&keys, &mut rng, false) {
        FieldEffect::ConfirmOjama { drops, .. } => assert!(drops.is_empty()),
        _ => panic!("expected a confirmation"),
    }
    assert!(f.field_state == FieldState::Next);
}

#[test]
fn garbage_messages_accumulate() {
    let mut f = Field::new();
    f.receive_ojama(0, &Ojama { player_id: 1, num: 3, frame: 0 });
    f.receive_ojama(0, &Ojama { player_id: 1, num: 4, frame: 0 });
    assert_eq!(f.kari_ojama, 7);
    assert_eq!(f.ojama_count, OJAMA_COUNT);
    f.receive_ojama(0, &Ojama { player_id: 0, num: 9, frame: 0 });
    assert_eq!(f.kari_ojama, 7);
    f.receive_ojama(0, &Ojama { player_id: 1, num: 2, frame: 50 });
    assert_eq!(f.kari_ojama, 0);
    assert_eq!(f.kakutei_ojama, 9);
}

#[test]
fn earned_garbage_is_sent_once() {
    let mut f = Field::new();
    f.score = 250;
    assert_eq!(f.send_ojama(), 3);
    assert_eq!(f.ojama_sent_score, 210);
    assert_eq!(f.send_ojama(), 0);
    f.score = 300;
    assert_eq!(f.send_ojama(), 1);
    assert_eq!(f.ojama_sent_score, 280);
}

#[test]
fn fall_waits_for_settled_blocks() {
    let (mut f, mut rng) = playing_field();
    f.field_state = FieldState::Fall;
    let keys = KeyResource::<Player1>::new();
    let _ = f.update(&keys, &mut rng, false);
    assert!(f.field_state == FieldState::Fall);
    let _ = f.update(&keys, &mut rng, true);
    assert!(f.field_state == FieldState::DeleteCheck);
}

#[test]
fn vanishing_lasts_forty_two_frames() {
    let (mut f, mut rng) = playing_field();
    f.field_state = FieldState::Delete;
    f.delete_count = 0;
    f.base_score = 40;
    f.bonus_multiply = 2;
    f.score = 5;
    f.ojama_sent_score = 0;
    let keys = KeyResource::<Player1>::new();
    for n in 1..=42 {
        let _ = f.update(&keys, &mut rng, false);
        assert_eq!(f.delete_count, n);
        assert_eq!(f.score, if n >= 31 { 85 } else { 5 });
        assert_eq!(f.field_state == FieldState::Delete, n < 42);
    }
    assert!(f.field_state == FieldState::FallCheck);
    assert_eq!(f.ojama_sent_score, 70);
}

#[test]
fn moving_right_mirrors_moving_left() {
    let heights = [22, 3, 9, 1, 14, 2, 5, 22];
    for dir in 0..4 {
        for line in 1..=6usize {
            if (dir == 1 && line > 5) || (dir == 3 && line < 2) {
                continue;
            }
            for y in [0, 120, 360, 520] {
                let mut f = Field::new();
                f.line_dan = heights.to_vec();
                f.moving_line = line;
                f.moving_dir_idx = dir;
                f.moving_y = y;
                let mut m = Field::new();
                m.line_dan = heights.iter().rev().cloned().collect();
                m.moving_line = 7 - line;
                m.moving_dir_idx = [0, 3, 2, 1][dir as usize];
                m.moving_y = y;
                assert_eq!(m.can_left(), f.can_right());
                assert_eq!(m.can_right(), f.can_left());
            }
        }
    }
}

#[test]
fn a_field_stays_ready_until_it_loses() {
    let (mut f, mut rng) = started_field();
    f.receive_transition(0, &TransitionEvent { player_id: -1, transition: Transition::Start });
    let mut keys = KeyResource::<Player1>::new();
    keys.down = true;
    let mut frames = 0;
    while f.field_state != FieldState::LoseFall {
        assert!(f.check_ready(), "not ready in {:?} after {} frames", f.field_state, frames);
        let _ = f.update(&keys, &mut rng, true);
        frames += 1;
        assert!(frames < 100_000);
    }
    assert!(f.score > 0);
}
