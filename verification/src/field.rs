//! One player's field: the grid, the falling pair, the counters that time
//! it, the score and the garbage blocks owed to this player.
//!
//! Positions on screen are kept in whole pixels relative to the field's
//! base position: a block is `BLOCK_SIZE` pixels high and the falling pair
//! moves down by `FALL_DOWN_Y` pixels at a time, so every position the game
//! reaches is a whole number of pixels.  The horizontal position of the pair
//! is always `moving_line * BLOCK_SIZE`, so only its column is kept.
use vstd::prelude::*;
use crate::grid::{cell, column_heights, is_height, FIELD_WIDTH, GRID_LEN};

verus! {

pub const BLOCK_SIZE: i32 = 40;
pub const INIT_FALL_COUNT: i32 = 20;
pub const FALL_DOWN_Y: i32 = 20;
pub const MOVING_FIRST_COUNT: i32 = 12;
pub const MOVING_CONT_COUNT: i32 = 2;
pub const ROTATE_COUNT: i32 = 3;
pub const FIX_COUNT: i32 = 20;
pub const DELETE_BLINK: i32 = 30;
pub const DELETE_END: i32 = 40;
pub const OJAMA_COUNT: i32 = 30;
pub const SCORE_PER_OJAMA: i32 = 70;
/// The column the pair appears in.
pub const SPAWN_LINE: usize = 3;
/// The row the pair appears in.
pub const SPAWN_ROW: i32 = 13;

/// What the field is doing.
#[derive(PartialEq, Eq, Structural, Clone, Copy, Debug)]
pub enum FieldState {
    Init,
    Wait,
    Next,
    Move,
    FallCheck,
    Fall,
    DeleteCheck,
    Delete,
    OjamaFallCheck,
    OjamaFall,
    Win,
    Lose,
    LoseFall,
}

/// A player's field.
pub struct Field {
    /// Colour index of every cell (see `grid`).
    pub arrange: Vec<i32>,
    /// Height of every column, as last counted.
    pub line_dan: Vec<i32>,
    pub field_state: FieldState,
    /// Height in pixels of the primary block of the falling pair above the
    /// field's base.
    pub moving_y: i32,
    /// Column of the primary block of the falling pair.
    pub moving_line: usize,
    /// Where the secondary block sits: 0 above, 1 right, 2 below, 3 left.
    pub moving_dir_idx: i32,
    /// Colours of the primary and the secondary block of the falling pair.
    pub moving_color_idx: (i32, i32),
    /// Colours of the next pair.
    pub next_color_idx: (i32, i32),
    pub fall_count: i32,
    pub fall_next_count: i32,
    pub fall_down_count: i32,
    pub moving_lr_count: i32,
    pub moving_prev_dir_idx: i32,
    pub moving_rot_count: i32,
    pub on_ground: bool,
    pub fix_count: i32,
    pub delete_count: i32,
    pub score: i32,
    pub ojama_sent_score: i32,
    pub base_score: i32,
    pub bonus_multiply: i32,
    pub rensa_num: i32,
    pub elapsed_frame: i32,
    /// Garbage blocks confirmed for this player.
    pub kakutei_ojama: i32,
    /// Garbage blocks announced but not yet confirmed.
    pub kari_ojama: i32,
    pub ojama_count: i32,
}

/// The height in pixels of a column of `dan` cells.
pub open spec fn height_px(dan: i32) -> int {
    dan * BLOCK_SIZE
}

impl Field {
    /// A field as it is first set up: waiting, with an empty (wall-less)
    /// grid, to be initialised when the game is reset.
    pub fn new() -> (f: Field)
        ensures
            f.field_state == FieldState::Wait,
            f.fall_count == INIT_FALL_COUNT,
            f.arrange@ == Seq::new(GRID_LEN as nat, |k: int| 0i32),
            f.line_dan@ == Seq::new(FIELD_WIDTH as nat, |k: int| 0i32),
            f.moving_y == 0 && f.moving_line == 0 && f.moving_dir_idx == 0,
            f.moving_color_idx == (0i32, 0i32) && f.next_color_idx == (0i32, 0i32),
            f.fall_next_count == 0 && f.fall_down_count == 0 && f.moving_lr_count == 0,
            f.moving_prev_dir_idx == 0 && f.moving_rot_count == 0 && !f.on_ground,
            f.fix_count == 0 && f.delete_count == 0 && f.score == 0 && f.ojama_sent_score == 0,
            f.base_score == 0 && f.bonus_multiply == 0 && f.rensa_num == 0,
            f.elapsed_frame == 0 && f.kakutei_ojama == 0 && f.kari_ojama == 0,
            f.ojama_count == 0,
    {
        let arrange = vec![0i32; GRID_LEN];
        let line_dan = vec![0i32; FIELD_WIDTH];
        proof {
            assert(arrange@ =~= Seq::new(GRID_LEN as nat, |k: int| 0i32));
            assert(line_dan@ =~= Seq::new(FIELD_WIDTH as nat, |k: int| 0i32));
        }
        Field {
            arrange,
            line_dan,
            field_state: FieldState::Wait,
            moving_y: 0,
            moving_line: 0,
            moving_dir_idx: 0,
            moving_color_idx: (0, 0),
            next_color_idx: (0, 0),
            fall_count: INIT_FALL_COUNT,
            fall_next_count: 0,
            fall_down_count: 0,
            moving_lr_count: 0,
            moving_prev_dir_idx: 0,
            moving_rot_count: 0,
            on_ground: false,
            fix_count: 0,
            delete_count: 0,
            score: 0,
            ojama_sent_score: 0,
            base_score: 0,
            bonus_multiply: 0,
            rensa_num: 0,
            elapsed_frame: 0,
            kakutei_ojama: 0,
            kari_ojama: 0,
            ojama_count: 0,
        }
    }

    /// Height in pixels of column `c`, as last counted.
    pub open spec fn lh(self, c: int) -> int {
        height_px(self.line_dan@[c])
    }

    /// Recounts the height of every column.
    pub fn update_line_height(&mut self)
        requires
            old(self).arrange@.len() == GRID_LEN,
        ensures
            final(self).line_dan@.len() == FIELD_WIDTH,
            forall|i: int|
                0 <= i < FIELD_WIDTH ==> is_height(
                    final(self).arrange@,
                    i,
                    #[trigger] final(self).line_dan@[i] as int,
                ),
            *final(self) == (Field { line_dan: final(self).line_dan, ..*old(self) }),
    {
        self.line_dan = column_heights(&self.arrange);
    }
}

} // verus!
