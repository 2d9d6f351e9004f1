use puyopuyo::game_statics::{Death, GameState, Transition, GAME_READY_COUNT};
use puyopuyo::keys::{u32_to_keycode, KeyName, KeyResource};
use puyopuyo::game_statics::Player2;
use puyopuyo::menus::{
    field_slot, on_death, result_step, start_event, wait_step, FieldSlot, GameValue, PlayState,
    TitleAction, TitleCursor,
};
use puyopuyo::ojama::{ojama_icons, spread_ojama, OjamaType};
use puyopuyo::field::Field;
use puyopuyo::rng::{create_next, next_colors_from, NextRngResource};
use puyopuyo::steps::setup_reset_seed;

#[test]
fn title_cursor_wraps_around() {
    let mut c = TitleCursor::new();
    assert_eq!(c.point(), 0);
    assert!(c.update(false, true, false) == TitleAction::Stay);
    assert_eq!(c.point(), 3);
    assert!(c.update(true, false, false) == TitleAction::Stay);
    assert_eq!(c.point(), 0);
    assert!(c.update(true, false, false) == TitleAction::Stay);
    assert_eq!(c.point(), 1);
    assert!(c.update(true, true, false) == TitleAction::Stay);
    assert_eq!(c.point(), 1);
}

#[test]
fn title_entries_lead_to_their_screens() {
    let mut c = TitleCursor::new();
    assert!(c.update(false, false, true) == TitleAction::Goto(GameState::Game1P));
    assert!(c.update(true, false, true) == TitleAction::Goto(GameState::Game2PLocal));
    assert!(c.update(true, false, true) == TitleAction::Goto(GameState::Connecting));
    assert!(c.update(true, false, true) == TitleAction::ExitGame);
}

#[test]
fn match_course() {
    assert!(wait_step(false).is_none());
    assert!(wait_step(true) == Some(PlayState::Ready));
    let mut v = GameValue::new();
    v.on_enter_ready();
    assert_eq!(v.ready_count, GAME_READY_COUNT);
    for _ in 0..GAME_READY_COUNT - 1 {
        assert!(v.ready().is_none());
    }
    assert!(v.ready() == Some(PlayState::Playing));
    let e = start_event();
    assert_eq!(e.player_id, -1);
    assert!(e.transition == Transition::Start);
    let (s, f) = on_death(&Death(1));
    assert!(s == PlayState::Result);
    assert_eq!(f.player_id, 1);
    assert!(f.transition == Transition::Finish);
    assert!(result_step(false).is_none());
    assert!(result_step(true) == Some((PlayState::Idle, GameState::Title)));
}

#[test]
fn field_slots() {
    assert!(field_slot(0, 1) == Some(FieldSlot::OnePlayer));
    assert!(field_slot(1, 0) == Some(FieldSlot::LocalPlayer1));
    assert!(field_slot(1, 1) == Some(FieldSlot::LocalPlayer2));
    assert!(field_slot(2, 0) == Some(FieldSlot::OnlinePlayer1));
    assert!(field_slot(2, 5) == Some(FieldSlot::OnlinePlayer2));
    assert!(field_slot(3, 0).is_none());
}

#[test]
fn key_numbers() {
    assert!(u32_to_keycode(33) == KeyName::X);
    assert!(u32_to_keycode(35) == KeyName::Z);
    assert!(u32_to_keycode(70) == KeyName::Left);
    assert!(u32_to_keycode(71) == KeyName::Up);
    assert!(u32_to_keycode(72) == KeyName::Right);
    assert!(u32_to_keycode(73) == KeyName::Down);
    assert!(u32_to_keycode(0) == KeyName::F24);
}

#[test]
fn reset_releases_every_key() {
    let mut k = KeyResource::<Player2>::new();
    k.down = true;
    k.just_rot_l = true;
    k.left = true;
    k.reset();
    assert!(!k.down && !k.left && !k.right && !k.just_left && !k.just_right);
    assert!(!k.just_rot_r && !k.just_rot_l);
}

#[test]
fn garbage_icons() {
    let v = ojama_icons(37);
    assert_eq!(v, vec![(OjamaType::Rock, 0), (OjamaType::Big, 40), (OjamaType::Small, 74)]);
    assert!(ojama_icons(0).is_empty());
    assert!(ojama_icons(-5).is_empty());
    let many = ojama_icons(300);
    assert_eq!(many.len(), 6);
    assert!(many.iter().all(|e| e.0 == OjamaType::Rock));
    let smalls = ojama_icons(5);
    assert_eq!(smalls.len(), 5);
    assert_eq!(smalls[4], (OjamaType::Small, 64));
}

#[test]
fn garbage_icon_row_is_rebuilt_once() {
    let mut f = Field::new();
    f.kari_ojama = 7;
    f.ojama_count = 30;
    let r = f.ojama_display_step();
    assert_eq!(r, Some(vec![(OjamaType::Big, 0), (OjamaType::Small, 34)]));
    assert_eq!(f.ojama_count, 29);
    assert!(f.ojama_display_step().is_none());
    assert_eq!(f.ojama_count, 28);
}

#[test]
fn garbage_is_shared_out() {
    let c = spread_ojama(8);
    assert_eq!(c.len(), 8);
    assert_eq!(c[0], 0);
    assert_eq!(c[7], 0);
    assert_eq!(c.iter().sum::<i32>(), 8);
    assert!(c[1..7].iter().all(|&n| n == 1 || n == 2));
    let full = spread_ojama(45);
    assert_eq!(full, vec![0, 5, 5, 5, 5, 5, 5, 0]);
    let six = spread_ojama(6);
    assert_eq!(six, vec![0, 1, 1, 1, 1, 1, 1, 0]);
}

#[test]
fn pair_colours() {
    assert_eq!(next_colors_from(0, 7), (1, 4));
    assert_eq!(next_colors_from(5, 10), (2, 3));
    let mut rng = NextRngResource::<Player2>::new();
    for _ in 0..20 {
        let (a, b) = create_next(&mut rng);
        assert!((1..=4).contains(&a) && (1..=4).contains(&b));
    }
}

#[test]
fn same_seed_deals_same_pairs() {
    let mut r1 = NextRngResource::<Player2>::new();
    let mut r2 = NextRngResource::<Player2>::new();
    r1.reseed(99);
    r2.reseed(99);
    for _ in 0..10 {
        assert_eq!(create_next(&mut r1), create_next(&mut r2));
    }
}

#[test]
fn only_the_first_player_sends_the_seed() {
    assert!(setup_reset_seed(0).is_some());
    assert!(setup_reset_seed(1).is_none());
}
