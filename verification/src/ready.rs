//! Run-time checks of what a frame of a field, or a garbage message, needs.
use vstd::prelude::*;
use crate::chain::walls_intact;
use crate::field::{Field, FieldState, DELETE_BLINK, FIX_COUNT, ROTATE_COUNT};
use crate::game_statics::Ojama;
use crate::grid::{
    cell, column_heights, get_cell, in_field, is_height, is_wall_cell, FIELD_HEIGHT, FIELD_WIDTH,
    GRID_LEN, WALL,
};

verus! {

/// Whether the wall cells of `g` hold `WALL`.
pub fn walls_ok(g: &Vec<i32>) -> (r: bool)
    ensures
        r == walls_intact(g@),
{
    if g.len() != GRID_LEN {
        return false;
    }
    let mut i: usize = 0;
    while i < FIELD_WIDTH
        invariant
            i <= FIELD_WIDTH,
            g@.len() == GRID_LEN,
            forall|a: int, b: int|
                0 <= a < i && 0 <= b < FIELD_HEIGHT && is_wall_cell(a, b) ==> #[trigger] cell(
                    g@,
                    a,
                    b,
                ) == WALL,
        decreases FIELD_WIDTH - i,
    {
        let mut j: usize = 0;
        while j < FIELD_HEIGHT
            invariant
                i < FIELD_WIDTH,
                j <= FIELD_HEIGHT,
                g@.len() == GRID_LEN,
                forall|a: int, b: int|
                    ((0 <= a < i && 0 <= b < FIELD_HEIGHT) || (a == i && 0 <= b < j))
                        && is_wall_cell(a, b) ==> #[trigger] cell(g@, a, b) == WALL,
            decreases FIELD_HEIGHT - j,
        {
            if (i == 0 || i == FIELD_WIDTH - 1 || j == 0) && get_cell(g, i, j) != WALL {
                assert(in_field(i as int, j as int) && is_wall_cell(i as int, j as int));
                return false;
            }
            j = j + 1;
        }
        i = i + 1;
    }
    true
}

proof fn lemma_height_unique(g: Seq<i32>, c: int, h1: int, h2: int)
    requires
        is_height(g, c, h1),
        is_height(g, c, h2),
    ensures
        h1 == h2,
{
    if h1 < h2 {
        assert(cell(g, c, h1) != 0);
    } else if h2 < h1 {
        assert(cell(g, c, h2) != 0);
    }
}

/// Whether `dan` holds the heights of the columns of `g`.
pub fn heights_ok(g: &Vec<i32>, dan: &Vec<i32>) -> (r: bool)
    requires
        g@.len() == GRID_LEN,
    ensures
        r == (dan@.len() == FIELD_WIDTH && forall|c: int|
            0 <= c < FIELD_WIDTH ==> is_height(g@, c, #[trigger] dan@[c] as int)),
{
    if dan.len() != FIELD_WIDTH {
        return false;
    }
    let h = column_heights(g);
    let mut c: usize = 0;
    while c < FIELD_WIDTH
        invariant
            c <= FIELD_WIDTH,
            g@.len() == GRID_LEN,
            dan@.len() == FIELD_WIDTH,
            h@.len() == FIELD_WIDTH,
            forall|a: int| 0 <= a < FIELD_WIDTH ==> is_height(g@, a, #[trigger] h@[a] as int),
            forall|a: int| 0 <= a < c ==> #[trigger] dan@[a] == h@[a],
        decreases FIELD_WIDTH - c,
    {
        if dan[c] != h[c] {
            proof {
                if is_height(g@, c as int, dan@[c as int] as int) {
                    lemma_height_unique(g@, c as int, dan@[c as int] as int, h@[c as int] as int);
                }
            }
            return false;
        }
        c = c + 1;
    }
    true
}

impl Field {
    /// Whether this frame of the field can run (see `ready`).
    pub fn check_ready(&self) -> (r: bool)
        ensures
            r == self.ready(),
    {
        if self.elapsed_frame == i32::MAX && self.field_state != FieldState::Wait
            && self.field_state != FieldState::Init {
            return false;
        }
        match self.field_state {
            FieldState::Next => self.arrange.len() == GRID_LEN,
            FieldState::FallCheck => self.arrange.len() == GRID_LEN,
            FieldState::DeleteCheck => walls_ok(&self.arrange) && 0 <= self.rensa_num
                && self.rensa_num <= 18,
            FieldState::Delete => self.check_delete(),
            FieldState::OjamaFallCheck => walls_ok(&self.arrange) && 0 <= self.kakutei_ojama
                && self.kakutei_ojama <= i32::MAX - 100,
            FieldState::Move => self.check_move(),
            _ => true,
        }
    }

    /// Whether a frame of the falling pair can run.
    fn check_move(&self) -> (r: bool)
        ensures
            r == (self.move_shape_ok() && self.move_room()),
    {
        if !walls_ok(&self.arrange) {
            return false;
        }
        if !heights_ok(&self.arrange, &self.line_dan) {
            return false;
        }
        let mut c: usize = 1;
        while c < 7
            invariant
                1 <= c <= 7,
                self.line_dan@.len() == FIELD_WIDTH,
                forall|a: int| 1 <= a < c ==> #[trigger] self.line_dan@[a] <= 20,
            decreases 7 - c,
        {
            if self.line_dan[c] > 20 {
                return false;
            }
            c = c + 1;
        }
        let l = self.moving_line;
        let d = self.moving_dir_idx;
        1 <= l && l <= 6 && 0 <= d && d <= 3 && (d != 1 || l <= 5) && (d != 3 || l >= 2) && 0
            <= self.moving_y && self.moving_y <= 840 && 0 <= self.fall_count && self.fall_count
            <= 1000 && 0 <= self.fall_next_count && self.fall_next_count <= 1000 && 0
            <= self.fix_count && self.fix_count < 2 * FIX_COUNT && (!self.on_ground
            || self.fix_count < FIX_COUNT) && 0 <= self.moving_rot_count && self.moving_rot_count
            <= ROTATE_COUNT && self.fall_down_count >= 0 && self.fall_down_count < i32::MAX
            && self.score < i32::MAX && self.moving_lr_count > i32::MIN + 2
    }

    /// Whether a frame of cleared blocks vanishing can run.
    fn check_delete(&self) -> (r: bool)
        requires
            self.field_state == FieldState::Delete,
        ensures
            r == ({
                &&& 0 <= self.ojama_sent_score <= self.score
                &&& 0 <= self.base_score <= 720
                &&& 1 <= self.bonus_multiply <= 1256
                &&& self.delete_count == DELETE_BLINK ==> self.score + self.base_score
                    * self.bonus_multiply <= i32::MAX
                &&& self.delete_count < i32::MAX
            }),
    {
        if !(0 <= self.ojama_sent_score && self.ojama_sent_score <= self.score && 0
            <= self.base_score && self.base_score <= 720 && 1 <= self.bonus_multiply
            && self.bonus_multiply <= 1256 && self.delete_count < i32::MAX) {
            return false;
        }
        if self.delete_count == DELETE_BLINK {
            let b = self.base_score as i64;
            let m = self.bonus_multiply as i64;
            assert(0 <= b * m <= 720 * 1256) by (nonlinear_arith)
                requires
                    0 <= b <= 720,
                    1 <= m <= 1256,
            ;
            self.score as i64 + b * m <= i32::MAX as i64
        } else {
            true
        }
    }

    /// Whether `receive_ojama` can take in this message.
    pub fn check_ojama(&self, player_id: i32, ojm: &Ojama) -> (r: bool)
        ensures
            r == (ojm.player_id != player_id ==> (if ojm.frame != 0 {
                i32::MIN <= self.kakutei_ojama + ojm.num + self.kari_ojama <= i32::MAX && i32::MIN
                    <= ojm.num + self.kari_ojama <= i32::MAX
            } else {
                i32::MIN <= self.kari_ojama + ojm.num <= i32::MAX
            })),
    {
        if ojm.player_id == player_id {
            return true;
        }
        let k = self.kakutei_ojama as i64;
        let n = ojm.num as i64;
        let t = self.kari_ojama as i64;
        let lo = i32::MIN as i64;
        let hi = i32::MAX as i64;
        if ojm.frame != 0 {
            lo <= k + n + t && k + n + t <= hi && lo <= n + t && n + t <= hi
        } else {
            lo <= t + n && t + n <= hi
        }
    }
}

} // verus!
