use raycaster::enemy::{Enemy, Point};
use raycaster::game::{menu_step, play_step, start_game, Action, GameState, Keys, Session};

fn keys(up: bool, down: bool, enter: bool, escape: bool) -> Keys {
    Keys { up, down, enter, escape }
}

const NONE: Keys = Keys { up: false, down: false, enter: false, escape: false };

#[test]
fn starting_leads_to_level_selection() {
    assert_eq!(start_game(), GameState::LevelSelect);
}

#[test]
fn menu_navigation() {
    let s = Session::new();
    let (s, a) = menu_step(s, keys(true, false, false, false));
    assert_eq!((s.selected_option, a), (0, Action::Continue));
    let (s, _) = menu_step(s, keys(false, true, false, false));
    assert_eq!(s.selected_option, 1);
    let (s, _) = menu_step(s, keys(false, true, false, false));
    assert_eq!(s.selected_option, 1);
    let (_, a) = menu_step(s, keys(false, false, true, false));
    assert_eq!(a, Action::Quit);
}

#[test]
fn choosing_a_level_starts_play() {
    let (s, _) = menu_step(Session::new(), keys(false, false, true, false));
    assert_eq!(s.state, GameState::LevelSelect);
    let (s, _) = menu_step(s, keys(false, true, false, false));
    let (s, _) = menu_step(s, keys(false, true, false, false));
    let (s, _) = menu_step(s, keys(false, true, false, false));
    assert_eq!(s.selected_level, 2);
    let (s, a) = menu_step(s, keys(false, false, true, false));
    assert_eq!(a, Action::LoadLevel(2));
    assert_eq!(s.state, GameState::Playing);
    assert_eq!(s.lives, 2);
    assert!(s.level_loaded);
    let (s, a) = menu_step(s, keys(false, false, false, true));
    assert_eq!((s.state, a), (GameState::Menu, Action::ReleaseCursor));
}

fn playing() -> Session {
    let (s, _) = menu_step(Session::new(), keys(false, false, true, false));
    menu_step(s, keys(false, false, true, false)).0
}

#[test]
fn touching_an_enemy_costs_a_life() {
    let s = playing();
    let p = Point { x: 1500, y: 1500 };
    let enemies = vec![Enemy::new(1700, 1500), Enemy::new(1500, 1600)];
    let (s, a) = play_step(s, &p, &enemies, &None, 16);
    assert_eq!((s.lives, s.invulnerable_ms, a), (1, 2000, Action::Continue));
    // Still invulnerable a frame later.
    let (s, _) = play_step(s, &p, &enemies, &None, 16);
    assert_eq!((s.lives, s.invulnerable_ms), (1, 1984));
    let (s, a) = play_step(Session { invulnerable_ms: 10, ..s }, &p, &enemies, &None, 16);
    assert_eq!((s.state, s.lives, a), (GameState::GameOver, 0, Action::ReleaseCursor));
    let (s, _) = menu_step(s, keys(false, false, true, false));
    assert_eq!(s.state, GameState::Menu);
    assert!(!s.level_loaded);
}

#[test]
fn enemies_out_of_reach_are_harmless() {
    let s = playing();
    let p = Point { x: 1500, y: 1500 };
    let (s2, _) = play_step(s, &p, &vec![Enemy::new(1800, 1500)], &None, 16);
    assert_eq!(s2, s);
}

#[test]
fn reaching_the_finish_wins() {
    let s = playing();
    let p = Point { x: 1500, y: 1500 };
    let (s, a) = play_step(s, &p, &vec![], &Some(Point { x: 1500, y: 1799 }), 16);
    assert_eq!((s.state, a), (GameState::Victory, Action::ReleaseCursor));
    let (s, a) = menu_step(s, NONE);
    assert_eq!((s.state, a), (GameState::Victory, Action::Continue));
}
