//! The title menu, the course of a two-player match on one machine, and
//! which player a field plugin serves.
use vstd::prelude::*;
use crate::game_statics::{Death, GameState, Transition, TransitionEvent, GAME_READY_COUNT};

verus! {

/// Entries of the title menu.
pub const CURSOR_NUM: i32 = 4;

/// The cursor of the title menu; it always points at one of the entries.
pub struct TitleCursor {
    point: i32,
}

/// What the title menu asks for.
#[derive(PartialEq, Eq, Structural, Clone, Copy, Debug)]
pub enum TitleAction {
    Stay,
    Goto(GameState),
    ExitGame,
}

/// The screen an entry of the title menu leads to.
pub open spec fn title_choice(point: int) -> TitleAction {
    if point == 0 {
        TitleAction::Goto(GameState::Game1P)
    } else if point == 1 {
        TitleAction::Goto(GameState::Game2PLocal)
    } else if point == 2 {
        TitleAction::Goto(GameState::Connecting)
    } else {
        TitleAction::ExitGame
    }
}

/// The entry after moving down, then up, as the title menu moves its cursor.
pub open spec fn cursor_moved(point: int, down: bool, up: bool) -> int {
    let p1 = if down {
        (point + 1) % 4
    } else {
        point
    };
    if up {
        (p1 + 3) % 4
    } else {
        p1
    }
}

impl TitleCursor {
    #[verifier::type_invariant]
    spec fn inv(self) -> bool {
        0 <= self.point < CURSOR_NUM
    }

    pub closed spec fn view_point(self) -> int {
        self.point as int
    }

    /// The cursor on the first entry.
    pub fn new() -> (c: TitleCursor)
        ensures
            c.view_point() == 0,
    {
        TitleCursor { point: 0 }
    }

    /// The entry the cursor points at.
    pub fn point(&self) -> (p: i32)
        ensures
            p == self.view_point(),
            0 <= p < CURSOR_NUM,
    {
        proof {
            use_type_invariant(self);
        }
        self.point
    }

    /// One frame of the title menu: down moves the cursor one entry down,
    /// up one entry up, both wrapping around; the turn key chooses the entry.
    pub fn update(&mut self, down: bool, up: bool, rot_r: bool) -> (a: TitleAction)
        ensures
            final(self).view_point() == cursor_moved(old(self).view_point(), down, up),
            0 <= final(self).view_point() < CURSOR_NUM,
            a == (if rot_r {
                title_choice(final(self).view_point())
            } else {
                TitleAction::Stay
            }),
    {
        proof {
            use_type_invariant(&*self);
        }
        let mut p = self.point;
        if down {
            p = (p + 1) % CURSOR_NUM;
        }
        if up {
            p = (p + 3) % CURSOR_NUM;
        }
        self.point = p;
        if rot_r {
            if p == 0 {
                TitleAction::Goto(GameState::Game1P)
            } else if p == 1 {
                TitleAction::Goto(GameState::Game2PLocal)
            } else if p == 2 {
                TitleAction::Goto(GameState::Connecting)
            } else {
                TitleAction::ExitGame
            }
        } else {
            TitleAction::Stay
        }
    }
}

/// Moving the title cursor down and then up leaves it where it was.
pub proof fn law_cursor_down_up(point: int)
    requires
        0 <= point < CURSOR_NUM,
    ensures
        cursor_moved(cursor_moved(point, true, false), false, true) == point,
        cursor_moved(point, true, true) == point,
{
}

/// Moving the title cursor down once per entry brings it back.
pub proof fn law_cursor_cycle(point: int)
    requires
        0 <= point < CURSOR_NUM,
    ensures
        cursor_moved(
            cursor_moved(cursor_moved(cursor_moved(point, true, false), true, false), true, false),
            true,
            false,
        ) == point,
{
}

/// The course of a two-player match on one machine.
#[derive(PartialEq, Eq, Structural, Clone, Copy, Debug)]
pub enum PlayState {
    Idle,
    Wait,
    Ready,
    Playing,
    Result,
}

/// The answer of a countdown frame that leaves `count` frames: the match
/// starts when none are left.
pub open spec fn countdown_answer(count: int) -> Option<PlayState> {
    if count == 0 {
        Some(PlayState::Playing)
    } else {
        None
    }
}

/// The countdown after `n` frames from `c`.
pub open spec fn count_after(c: int, n: nat) -> int
    decreases n,
{
    if n == 0 {
        c
    } else {
        count_after(c, (n - 1) as nat) - 1
    }
}

/// The countdown of a match.
pub struct GameValue {
    pub ready_count: i32,
}

impl GameValue {
    pub fn new() -> (v: GameValue)
        ensures
            v.ready_count == 0,
    {
        GameValue { ready_count: 0 }
    }

    /// Entering the countdown: it starts at `GAME_READY_COUNT` frames.
    pub fn on_enter_ready(&mut self)
        ensures
            final(self).ready_count == GAME_READY_COUNT,
    {
        self.ready_count = GAME_READY_COUNT;
    }

    /// One frame of the countdown; at zero the match starts.
    pub fn ready(&mut self) -> (next: Option<PlayState>)
        requires
            old(self).ready_count > i32::MIN,
        ensures
            final(self).ready_count == count_after(old(self).ready_count as int, 1),
            next == countdown_answer(final(self).ready_count as int),
    {
        proof {
            reveal_with_fuel(count_after, 2);
        }
        self.ready_count = self.ready_count - 1;
        if self.ready_count == 0 {
            Some(PlayState::Playing)
        } else {
            None
        }
    }
}

/// Counted down from `GAME_READY_COUNT`, the match starts on the frame
/// numbered `GAME_READY_COUNT` and on no earlier one.
pub proof fn law_countdown(n: nat)
    requires
        1 <= n <= GAME_READY_COUNT,
    ensures
        count_after(GAME_READY_COUNT as int, n) == GAME_READY_COUNT - n,
        (countdown_answer(count_after(GAME_READY_COUNT as int, n)) is Some) <==> n
            == GAME_READY_COUNT,
    decreases n,
{
    reveal_with_fuel(count_after, 2);
    if n > 1 {
        law_countdown((n - 1) as nat);
    }
}

/// Waiting for the players: the ready key starts the countdown.
pub fn wait_step(ready_pressed: bool) -> (next: Option<PlayState>)
    ensures
        next == (if ready_pressed {
            Some(PlayState::Ready)
        } else {
            None
        }),
{
    if ready_pressed {
        Some(PlayState::Ready)
    } else {
        None
    }
}

/// The announcement that starts a match.
pub fn start_event() -> (e: TransitionEvent)
    ensures
        e.player_id == -1,
        e.transition == Transition::Start,
{
    TransitionEvent { player_id: -1, transition: Transition::Start }
}

/// A player topped out: the match goes to its result and both fields are
/// told who lost.
pub fn on_death(d: &Death) -> (r: (PlayState, TransitionEvent))
    ensures
        r.0 == PlayState::Result,
        r.1.player_id == d.0,
        r.1.transition == Transition::Finish,
{
    (PlayState::Result, TransitionEvent { player_id: d.0, transition: Transition::Finish })
}

/// The result screen: the menu key leaves the match for the title.
pub fn result_step(menu_pressed: bool) -> (r: Option<(PlayState, GameState)>)
    ensures
        r == (if menu_pressed {
            Some((PlayState::Idle, GameState::Title))
        } else {
            None
        }),
{
    if menu_pressed {
        Some((PlayState::Idle, GameState::Title))
    } else {
        None
    }
}

/// Which game mode and which player a field plugin serves.
#[derive(PartialEq, Eq, Structural, Clone, Copy, Debug)]
pub enum FieldSlot {
    OnePlayer,
    LocalPlayer1,
    LocalPlayer2,
    OnlinePlayer1,
    OnlinePlayer2,
}

/// The slot a field plugin with these settings serves: mode 0 is the
/// one-player game, 1 the local and 2 the online two-player game, where
/// player 0 is the first player and any other the second; other modes serve
/// none.
pub fn field_slot(game_mode: i32, player_id: i32) -> (s: Option<FieldSlot>)
    ensures
        s == (if game_mode == 0 {
            Some(FieldSlot::OnePlayer)
        } else if game_mode == 1 {
            Some(
                if player_id == 0 {
                    FieldSlot::LocalPlayer1
                } else {
                    FieldSlot::LocalPlayer2
                },
            )
        } else if game_mode == 2 {
            Some(
                if player_id == 0 {
                    FieldSlot::OnlinePlayer1
                } else {
                    FieldSlot::OnlinePlayer2
                },
            )
        } else {
            None
        }),
{
    match game_mode {
        0 => Some(FieldSlot::OnePlayer),
        1 => {
            if player_id == 0 {
                Some(FieldSlot::LocalPlayer1)
            } else {
                Some(FieldSlot::LocalPlayer2)
            }
        },
        2 => {
            if player_id == 0 {
                Some(FieldSlot::OnlinePlayer1)
            } else {
                Some(FieldSlot::OnlinePlayer2)
            }
        },
        _ => None,
    }
}

} // verus!
