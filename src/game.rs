//! The game's flow from frame to frame: the menu, the level selection,
//! play with its lives and contact checks, and the closing screens. Each
//! frame the caller hands in the keys pressed and gets back the next
//! session and what to do.

use vstd::prelude::*;
use crate::enemy::{Enemy, Point};

verus! {

/// Entries of the main menu: start, quit.
pub const NUM_OPTIONS: usize = 2;

/// Levels to choose from.
pub const NUM_LEVELS: usize = 3;

/// Lives at the start of a level.
pub const START_LIVES: i32 = 2;

/// How long, in milliseconds, the player cannot be hurt after a hit.
pub const INVULNERABLE_MS: i64 = 2000;

/// Two points closer than this, in sub-units, touch.
pub const CONTACT_RANGE: i64 = 300;

/// The largest frame time, in milliseconds.
pub const MAX_FRAME_MS: i64 = 1_000_000;

#[derive(Clone, Copy, Debug, PartialEq, Eq, Structural)]
/// The screen the game is on.
pub enum GameState {
    Menu,
    LevelSelect,
    Playing,
    Victory,
    GameOver,
}

/// The keys pressed in one frame.
#[derive(Clone, Copy, Debug, PartialEq, Eq, Structural)]
pub struct Keys {
    pub up: bool,
    pub down: bool,
    pub enter: bool,
    pub escape: bool,
}

/// What the caller does after a frame's step.
#[derive(Clone, Copy, Debug, PartialEq, Eq, Structural)]
pub enum Action {
    /// Nothing beyond drawing the current screen.
    Continue,
    /// Leave the game.
    Quit,
    /// Load the level of this index, reset the player, capture the cursor.
    LoadLevel(usize),
    /// Release the cursor.
    ReleaseCursor,
}

/// The state of a game between frames.
#[derive(Clone, Copy, Debug, PartialEq, Eq, Structural)]
pub struct Session {
    pub state: GameState,
    pub selected_option: usize,
    pub selected_level: usize,
    pub lives: i32,
    pub invulnerable_ms: i64,
    pub level_loaded: bool,
}

impl Session {
    /// The selections are in range, the lives and the timer bounded.
    pub open spec fn wf(&self) -> bool {
        &&& self.selected_option < NUM_OPTIONS
        &&& self.selected_level < NUM_LEVELS
        &&& -1_000_000 <= self.lives <= START_LIVES
        &&& -MAX_FRAME_MS <= self.invulnerable_ms <= INVULNERABLE_MS
    }

    /// A new game, at the main menu.
    pub fn new() -> (r: Session)
        ensures
            r.wf(),
            r.state == GameState::Menu,
            r.selected_option == 0,
            r.selected_level == 0,
            r.lives == START_LIVES,
            r.invulnerable_ms == 0,
            !r.level_loaded,
    {
        Session {
            state: GameState::Menu,
            selected_option: 0,
            selected_level: 0,
            lives: START_LIVES,
            invulnerable_ms: 0,
            level_loaded: false,
        }
    }
}

/// The state that starting a game leads to.
pub fn start_game() -> (r: GameState)
    ensures
        r == GameState::LevelSelect,
{
    GameState::LevelSelect
}

/// A selection moved up or down one entry, within `[0, n)`.
pub open spec fn moved_selection(sel: int, keys: Keys, n: int) -> int {
    let a = if keys.up && sel > 0 {
        sel - 1
    } else {
        sel
    };
    if keys.down && a < n - 1 {
        a + 1
    } else {
        a
    }
}

fn move_selection(sel: usize, keys: Keys, n: usize) -> (r: usize)
    requires
        sel < n,
    ensures
        r == moved_selection(sel as int, keys, n as int),
        r < n,
{
    let a = if keys.up && sel > 0 {
        sel - 1
    } else {
        sel
    };
    if keys.down && a < n - 1 {
        a + 1
    } else {
        a
    }
}

/// The session and action after one frame's keys, outside play, or on
/// leaving play with escape.
pub open spec fn menu_next(s: Session, keys: Keys) -> (Session, Action) {
    match s.state {
        GameState::Menu => {
            let opt = moved_selection(s.selected_option as int, keys, NUM_OPTIONS as int) as usize;
            if keys.enter && opt == 0 {
                (Session { state: GameState::LevelSelect, selected_option: opt, selected_level: 0, ..s }, Action::Continue)
            } else if keys.enter && opt == 1 {
                (Session { selected_option: opt, ..s }, Action::Quit)
            } else {
                (Session { selected_option: opt, ..s }, Action::Continue)
            }
        },
        GameState::LevelSelect => {
            let lvl = moved_selection(s.selected_level as int, keys, NUM_LEVELS as int) as usize;
            let s1 = if keys.escape {
                Session { state: GameState::Menu, selected_option: 0, selected_level: lvl, ..s }
            } else {
                Session { selected_level: lvl, ..s }
            };
            if keys.enter {
                (
                    Session {
                        state: GameState::Playing,
                        lives: START_LIVES,
                        invulnerable_ms: 0,
                        level_loaded: true,
                        ..s1
                    },
                    Action::LoadLevel(lvl),
                )
            } else {
                (s1, Action::Continue)
            }
        },
        GameState::Playing => {
            if !s.level_loaded {
                (Session { state: GameState::Menu, ..s }, Action::Continue)
            } else if keys.escape {
                (Session { state: GameState::Menu, selected_option: 0, ..s }, Action::ReleaseCursor)
            } else {
                (s, Action::Continue)
            }
        },
        GameState::Victory | GameState::GameOver => {
            if keys.enter {
                (
                    Session { state: GameState::Menu, selected_option: 0, level_loaded: false, ..s },
                    Action::Continue,
                )
            } else {
                (s, Action::Continue)
            }
        },
    }
}

/// One frame's step of the menus: moves the selection with up and down,
/// and acts on enter and escape. In play it only leaves for the menu, on
/// escape or where no level is loaded; the rest of play is `play_step`.
pub fn menu_step(s: Session, keys: Keys) -> (r: (Session, Action))
    requires
        s.wf(),
    ensures
        r == menu_next(s, keys),
        r.0.wf(),
{
    match s.state {
        GameState::Menu => {
            let opt = move_selection(s.selected_option, keys, NUM_OPTIONS);
            if keys.enter && opt == 0 {
                (Session { state: GameState::LevelSelect, selected_option: opt, selected_level: 0, ..s }, Action::Continue)
            } else if keys.enter && opt == 1 {
                (Session { selected_option: opt, ..s }, Action::Quit)
            } else {
                (Session { selected_option: opt, ..s }, Action::Continue)
            }
        },
        GameState::LevelSelect => {
            let lvl = move_selection(s.selected_level, keys, NUM_LEVELS);
            let s1 = if keys.escape {
                Session { state: GameState::Menu, selected_option: 0, selected_level: lvl, ..s }
            } else {
                Session { selected_level: lvl, ..s }
            };
            if keys.enter {
                (
                    Session {
                        state: GameState::Playing,
                        lives: START_LIVES,
                        invulnerable_ms: 0,
                        level_loaded: true,
                        ..s1
                    },
                    Action::LoadLevel(lvl),
                )
            } else {
                (s1, Action::Continue)
            }
        },
        GameState::Playing => {
            if !s.level_loaded {
                (Session { state: GameState::Menu, ..s }, Action::Continue)
            } else if keys.escape {
                (Session { state: GameState::Menu, selected_option: 0, ..s }, Action::ReleaseCursor)
            } else {
                (s, Action::Continue)
            }
        },
        _ => {
            if keys.enter {
                (
                    Session { state: GameState::Menu, selected_option: 0, level_loaded: false, ..s },
                    Action::Continue,
                )
            } else {
                (s, Action::Continue)
            }
        },
    }
}

/// Two points touch: they are closer than `CONTACT_RANGE`.
pub open spec fn touching(a: Point, b: Point) -> bool {
    (a.x - b.x) * (a.x - b.x) + (a.y - b.y) * (a.y - b.y) < CONTACT_RANGE * CONTACT_RANGE
}

/// Whether two points touch.
pub fn touches(a: &Point, b: &Point) -> (r: bool)
    requires
        crate::player::point_wf(*a),
        crate::player::point_wf(*b),
    ensures
        r == touching(*a, *b),
{
    let dx: i64 = a.x - b.x;
    let dy: i64 = a.y - b.y;
    assert(dx * dx <= 2_000_000_000 * 2_000_000_000 && dy * dy <= 2_000_000_000 * 2_000_000_000) by (nonlinear_arith)
        requires
            -2_000_000_000 <= dx <= 2_000_000_000,
            -2_000_000_000 <= dy <= 2_000_000_000,
    ;
    assert(0 <= dx * dx && 0 <= dy * dy) by (nonlinear_arith);
    dx * dx + dy * dy < CONTACT_RANGE * CONTACT_RANGE
}

/// The session after a frame of play: the invulnerability timer runs down
/// by `frame_ms`; once it has run out, touching any enemy costs one life,
/// which either ends the game or starts the timer again;
/// then reaching the finish wins.
pub open spec fn play_next(s: Session, p: Point, enemies: Seq<Enemy>, finish: Option<Point>, frame_ms: int) -> (Session, Action) {
    let t = if s.invulnerable_ms > 0 {
        s.invulnerable_ms - frame_ms
    } else {
        s.invulnerable_ms as int
    };
    let hit = t <= 0 && exists|k: int| 0 <= k < enemies.len() && touching(p, #[trigger] enemies[k].pos);
    let lives = if hit {
        s.lives - 1
    } else {
        s.lives as int
    };
    let over = hit && lives <= 0;
    let t2 = if hit && !over {
        INVULNERABLE_MS as int
    } else {
        t
    };
    let won = finish matches Some(f) && touching(p, f);
    let state = if won {
        GameState::Victory
    } else if over {
        GameState::GameOver
    } else {
        s.state
    };
    (
        Session { state, lives: lives as i32, invulnerable_ms: t2 as i64, ..s },
        if won || over {
            Action::ReleaseCursor
        } else {
            Action::Continue
        },
    )
}

/// One frame's contact checks during play.
pub fn play_step(s: Session, player: &Point, enemies: &Vec<Enemy>, finish: &Option<Point>, frame_ms: i64) -> (r: (
    Session,
    Action,
))
    requires
        s.wf(),
        s.lives > -1_000_000,
        0 <= frame_ms <= MAX_FRAME_MS,
        crate::player::point_wf(*player),
        forall|k: int| 0 <= k < enemies@.len() ==> crate::player::point_wf(#[trigger] enemies@[k].pos),
        *finish matches Some(f) ==> crate::player::point_wf(f),
    ensures
        r == play_next(s, *player, enemies@, *finish, frame_ms as int),
        r.0.wf(),
{
    let t: i64 = if s.invulnerable_ms > 0 {
        s.invulnerable_ms - frame_ms
    } else {
        s.invulnerable_ms
    };
    let mut hit = false;
    if t <= 0 {
        let mut k: usize = 0;
        while k < enemies.len()
            invariant
                k <= enemies@.len(),
                crate::player::point_wf(*player),
                forall|m: int| 0 <= m < enemies@.len() ==> crate::player::point_wf(#[trigger] enemies@[m].pos),
                hit == exists|m: int| 0 <= m < k && touching(*player, #[trigger] enemies@[m].pos),
            decreases enemies@.len() - k,
        {
            if touches(player, &enemies[k].pos) {
                hit = true;
                assert(touching(*player, enemies@[k as int].pos));
            }
            k = k + 1;
        }
    }
    let lives: i32 = if hit {
        s.lives - 1
    } else {
        s.lives
    };
    let over = hit && lives <= 0;
    let t2: i64 = if hit && !over {
        INVULNERABLE_MS
    } else {
        t
    };
    let won = match finish {
        Some(f) => touches(player, f),
        None => false,
    };
    let state = if won {
        GameState::Victory
    } else if over {
        GameState::GameOver
    } else {
        s.state
    };
    (
        Session { state, lives, invulnerable_ms: t2, ..s },
        if won || over {
            Action::ReleaseCursor
        } else {
            Action::Continue
        },
    )
}

} // verus!
