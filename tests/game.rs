use ohship::components::{Player, SPEED};
use ohship::geom::{sat_add, Rect, Vec2};
use ohship::state::loading::LoadingState;
use ohship::state::play::{Controls, PlayState};
use ohship::state::{CurrentState, Frame, StateManager, StateTransition};
use ohship::map::TileMap;

const LEVEL: &str = "size: 2, 1\noverlap: 0, 0\ntile: 32, 32\ntile: grass, 0, 0, true\ntile: wall, 0, 1, false";

const NO_KEYS: Controls = Controls { forward: false, turn_left: false, turn_right: false };

fn step_at(angle: i64) -> Vec2 {
    let a = angle as f32 * std::f32::consts::PI / 180.0;
    Vec2::new((a.sin() * -(SPEED as f32)).round() as i64, (a.cos() * SPEED as f32).round() as i64)
}

#[test]
fn heading_full_turn_left_returns_to_zero() {
    let mut p = Player::new();
    p.angle = 0;
    for _ in 0..180 {
        p.turn_left();
        assert!(p.angle >= 0 && p.angle < 360);
    }
    assert_eq!(p.angle, 0);
}

#[test]
fn heading_wraps_both_ways() {
    let mut p = Player::new();
    assert_eq!(p.angle, 180);
    p.angle = 0;
    p.turn_left();
    assert_eq!(p.angle, 358);
    p.turn_right();
    assert_eq!(p.angle, 0);
    p.angle = -7;
    p.turn_right();
    assert_eq!(p.angle, 355);
}

#[test]
fn forward_at_heading_zero_moves_player_and_view() {
    let mut s = PlayState::new();
    s.player.angle = 0;
    let before = s.player.body;
    let view = s.view;
    let step = step_at(s.player.angle);
    assert_eq!(step, Vec2 { x: 0, y: SPEED });
    let t = s.update(Controls { forward: true, turn_left: false, turn_right: false }, step);
    assert!(matches!(t, StateTransition::NoTransition));
    assert_eq!(s.player.body.pos, Vec2 { x: before.pos.x, y: before.pos.y + 4 });
    assert_eq!(s.view.pos, Vec2 { x: view.pos.x, y: view.pos.y + 4 });
    assert_eq!(s.view.size, view.size);
}

#[test]
fn play_turns_without_moving() {
    let mut s = PlayState::new();
    s.update(Controls { forward: false, turn_left: true, turn_right: false }, Vec2::new(9, 9));
    assert_eq!(s.player.angle, 178);
    assert_eq!(s.view, Rect::new_sized(Vec2::new(600, 600)));
    s.update(Controls { forward: false, turn_left: true, turn_right: true }, Vec2::new(9, 9));
    assert_eq!(s.player.angle, 178);
}

#[test]
fn movement_saturates() {
    assert_eq!(sat_add(i64::MAX, 1), i64::MAX);
    assert_eq!(sat_add(i64::MIN, -1), i64::MIN);
    assert_eq!(sat_add(3, -5), -2);
    let mut s = PlayState::new();
    s.update_position(Vec2::new(-300, 10));
    assert_eq!(s.player.body.pos, Vec2 { x: -23, y: 253 });
    assert_eq!(s.view.pos, Vec2 { x: -300, y: 10 });
}

#[test]
fn atlas_ready_without_level_text_waits() {
    let mut l = LoadingState::new();
    assert!(matches!(l.update(true, None), Ok(StateTransition::NoTransition)));
}

#[test]
fn loading_needs_both_resources() {
    let mut l = LoadingState::new();
    let text = String::from(LEVEL);
    assert!(matches!(l.update(false, Some(&text)), Ok(StateTransition::NoTransition)));
    match l.update(true, Some(&text)) {
        Ok(StateTransition::StartGameTransition(m)) => assert_eq!(m.tiles.len(), 2),
        other => panic!("unexpected {:?}", other),
    }
    let bad = String::from("size: 1, 1\n");
    assert!(l.update(false, Some(&bad)).is_err());
    assert!(matches!(l.event(), StateTransition::NoTransition));
}

#[test]
fn readiness_join_fires_on_first_frame_with_both() {
    let text = String::from(LEVEL);
    let frames: Vec<(bool, bool)> = vec![(false, false), (true, false), (false, true), (true, true), (true, true)];
    let mut sm = StateManager::new();
    let mut fired = None;
    for (i, (atlas, map)) in frames.iter().enumerate() {
        let before = sm.current_state();
        let t = if *map { Some(&text) } else { None };
        sm.update(*atlas, t, NO_KEYS, Vec2::new(0, 0)).unwrap();
        if before == CurrentState::Loading && sm.current_state() == CurrentState::Playing {
            assert!(fired.is_none());
            fired = Some(i);
        }
    }
    assert_eq!(fired, Some(3));
    assert_eq!(sm.play.map.tiles.len(), 2);
    assert_eq!(sm.play.map.tiles[1].texture, "wall");
}

#[test]
fn manager_reports_parse_errors_and_stays_loading() {
    let mut sm = StateManager::new();
    let bad = String::from("size: 1, 1\noverlap: 0, 0\ntile: 8, 8\ntile: a, 0, 0, maybe\n");
    assert!(sm.update(true, Some(&bad), NO_KEYS, Vec2::new(0, 0)).is_err());
    assert_eq!(sm.current_state(), CurrentState::Loading);
}

#[test]
fn manager_transitions() {
    let mut sm = StateManager::new();
    assert!(matches!(sm.draw(), Frame::Loading));
    sm.transition_state(StateTransition::NoTransition);
    assert_eq!(sm.current_state(), CurrentState::Loading);
    sm.transition_state(StateTransition::StateLessTransition(CurrentState::Playing));
    assert_eq!(sm.current_state(), CurrentState::Playing);
    sm.transition_state(StateTransition::StateLessTransition(CurrentState::Loading));
    let mut text = String::from(LEVEL);
    let m = TileMap::from_string(&mut text).unwrap();
    sm.transition_state(StateTransition::StartGameTransition(m));
    assert_eq!(sm.current_state(), CurrentState::Playing);
    sm.event();
    assert_eq!(sm.current_state(), CurrentState::Playing);
    match sm.draw() {
        Frame::Playing(f) => {
            assert_eq!(f.tiles.len(), 2);
            assert_eq!(f.tiles[0].texture, "grass");
            assert_eq!(f.player.texture, "redShip1");
            assert_eq!(f.player.rotation, 180);
            assert_eq!(f.player.z, 2);
        }
        Frame::Loading => panic!("still loading"),
    }
    sm.update(false, None, Controls { forward: true, turn_left: false, turn_right: true }, Vec2::new(1, -2)).unwrap();
    assert_eq!(sm.play.player.body.pos, Vec2 { x: 278, y: 241 });
    assert_eq!(sm.play.player.angle, 182);
}
