//! What every frame of a field keeps: the walls of its grid, the ranges of
//! its counters and the shape of its falling pair.  Together with room left
//! in the counters that can run out, this is what the next frame needs.
use vstd::prelude::*;
use crate::chain::walls_intact;
use crate::field::{Field, FieldState, FIX_COUNT, ROTATE_COUNT};
use crate::field::OJAMA_COUNT;
use crate::grid::{cell, grid_wf, in_field, is_height, is_wall_cell, FIELD_WIDTH, GRID_LEN, WALL};
use crate::moving::{
    is_first_free, lemma_steer_keeps, lemma_walls_heights, pair_placed, partner_column,
};
use crate::ojama::spread_ok;
use crate::steps::{drop_sum, law_drop_within_confirmed, ojama_dropped};
use crate::keys::KeyResource;
use crate::steps::FieldEffect;

verus! {

impl Field {
    /// What a field keeps from frame to frame: its walls and its counters.
    pub open spec fn sound(self) -> bool {
        &&& walls_intact(self.arrange@)
        &&& self.counters_sound()
    }

    /// What a field keeps from frame to frame besides its walls: the ranges
    /// of its counters and the shape of its falling pair.
    pub open spec fn counters_sound(self) -> bool {
        &&& 0 <= self.fall_count <= 1000
        &&& 0 <= self.ojama_sent_score <= self.score
        &&& self.kakutei_ojama >= 0
        &&& self.fall_down_count >= 0
        &&& self.rensa_num >= 0
        &&& 0 <= self.fix_count < 2 * FIX_COUNT
        &&& self.on_ground ==> self.fix_count < FIX_COUNT
        &&& 0 <= self.moving_rot_count <= ROTATE_COUNT
        &&& self.field_state == FieldState::Move ==> {
            &&& self.line_dan@.len() == FIELD_WIDTH
            &&& forall|c: int|
                0 <= c < FIELD_WIDTH ==> is_height(
                    self.arrange@,
                    c,
                    #[trigger] self.line_dan@[c] as int,
                )
            &&& 1 <= self.moving_line <= 6
            &&& 0 <= self.moving_dir_idx <= 3
            &&& self.moving_dir_idx == 1 ==> self.moving_line <= 5
            &&& self.moving_dir_idx == 3 ==> self.moving_line >= 2
            &&& 0 <= self.moving_y <= 840
            &&& 0 <= self.fall_next_count <= 1000
        }
        &&& self.field_state == FieldState::Delete ==> {
            &&& 0 <= self.base_score <= 720
            &&& 1 <= self.bonus_multiply <= 1256
            &&& 0 <= self.delete_count <= 41
        }
    }

    /// The room the next frame needs in what can run out: the frame
    /// counter, the height of the columns and the counters of the falling
    /// pair, the links of a chain, the score, the confirmed garbage.
    pub open spec fn room(self) -> bool {
        &&& (self.field_state != FieldState::Wait && self.field_state != FieldState::Init
            ==> self.elapsed_frame < i32::MAX)
        &&& self.field_state == FieldState::Move ==> {
            &&& forall|c: int| 1 <= c <= 6 ==> #[trigger] self.line_dan@[c] <= 20
            &&& self.move_room()
        }
        &&& self.field_state == FieldState::DeleteCheck ==> self.rensa_num <= 18
        &&& self.field_state == FieldState::Delete ==> (self.delete_count == 30 ==> self.score
            + self.base_score * self.bonus_multiply <= i32::MAX)
        &&& self.field_state == FieldState::OjamaFallCheck ==> self.kakutei_ojama <= i32::MAX
            - 100
    }
}

/// A sound field with room for its next frame is ready for it.
pub proof fn lemma_sound_room_ready(f: Field)
    requires
        f.sound(),
        f.room(),
    ensures
        f.ready(),
{
}

/// Every frame keeps a field sound: a frame of a sound field that is ready
/// leaves it sound, and ready for the next frame whenever there is room for
/// it.  The frame that sets a field up needs only its counters in range:
/// it builds the walls.
pub proof fn law_frame_keeps_sound<T>(
    f: Field,
    keys: KeyResource<T>,
    g: Field,
    eff: FieldEffect,
    is_settled: bool,
)
    requires
        f.ready(),
        f.counters_sound(),
        f.field_state == FieldState::Init || walls_intact(f.arrange@),
        Field::frame_post(f, keys, g, eff, is_settled),
    ensures
        g.sound(),
        g.room() ==> g.ready(),
{
    let mid = Field { elapsed_frame: f.elapsed_frame, ..g };
    match f.field_state {
        FieldState::Init => {
            assert(grid_wf(g.arrange@));
            assert forall|i: int, j: int| in_field(i, j) && is_wall_cell(i, j) implies #[trigger] cell(
                g.arrange@,
                i,
                j,
            ) == WALL by {
                assert(grid_wf(g.arrange@));
            }
        },
        FieldState::Move => {
            let m = f.after_steer(keys);
            lemma_steer_keeps(f, keys);
            if m.fixes() {
                lemma_fix_keeps_walls(m, g);
            }
        },
        FieldState::OjamaFallCheck => {
            if f.kakutei_ojama != 0 {
                lemma_drops_keep_walls(f, mid, eff);
            }
        },
        _ => {},
    }
    if g.room() {
        lemma_sound_room_ready(g);
    }
}

/// Fixing the pair leaves the walls alone.
proof fn lemma_fix_keeps_walls(m: Field, g: Field)
    requires
        m.move_mid_ok(),
        exists|prim: (usize, usize), sec: (usize, usize)|
            pair_placed(
                m.arrange@,
                g.arrange@,
                m.moving_line as int,
                m.moving_dir_idx as int,
                m.moving_color_idx,
                prim,
                sec,
            ),
        g.arrange@.len() == GRID_LEN,
    ensures
        walls_intact(g.arrange@),
{
    let (prim, sec) = choose|prim: (usize, usize), sec: (usize, usize)|
        pair_placed(
            m.arrange@,
            g.arrange@,
            m.moving_line as int,
            m.moving_dir_idx as int,
            m.moving_color_idx,
            prim,
            sec,
        );
    let l = m.moving_line as int;
    let c2 = partner_column(l, m.moving_dir_idx as int);
    if exists|r: int| is_first_free(m.arrange@, l, c2, r) {
        let r = choose|r: int| is_first_free(m.arrange@, l, c2, r);
        assert(cell(m.arrange@, l, 0) == WALL);
        assert(r >= 1);
        assert forall|a: int, b: int| in_field(a, b) && is_wall_cell(a, b) implies #[trigger] cell(
            g.arrange@,
            a,
            b,
        ) == WALL by {
            assert(cell(m.arrange@, a, b) == WALL);
        }
    }
}

proof fn lemma_drop_sum_low(k: int, c: Seq<i32>, dan: Seq<i32>, n: int)
    requires
        spread_ok(k, c),
        k >= 0,
        dan.len() == FIELD_WIDTH,
        forall|i: int| 0 <= i < FIELD_WIDTH ==> #[trigger] dan[i] <= 22,
        1 <= n <= 7,
    ensures
        drop_sum(c, dan, n) >= -9 * (n - 1),
    decreases n,
{
    if n > 1 {
        lemma_drop_sum_low(k, c, dan, n - 1);
        assert(c[n - 1] >= 0);
        assert(dan[n - 1] <= 22);
    }
}

/// Dropping garbage blocks leaves the walls alone and never more blocks
/// than are confirmed.
proof fn lemma_drops_keep_walls(f: Field, mid: Field, eff: FieldEffect)
    requires
        walls_intact(f.arrange@),
        f.kakutei_ojama > 0,
        f.kakutei_ojama <= i32::MAX - 100,
        Field::ojama_fall_check_post(f, mid, eff),
    ensures
        walls_intact(mid.arrange@),
        mid.kakutei_ojama >= 0,
{
    let c = choose|c: Seq<i32>|
        {
            &&& spread_ok(f.kakutei_ojama as int, c)
            &&& mid.line_dan@.len() == FIELD_WIDTH
            &&& (forall|i: int|
                0 <= i < FIELD_WIDTH ==> is_height(
                    f.arrange@,
                    i,
                    #[trigger] mid.line_dan@[i] as int,
                ))
            &&& ojama_dropped(f.arrange@, mid.arrange@, c, mid.line_dan@, eff->drops@)
            &&& mid == (Field {
                arrange: mid.arrange,
                line_dan: mid.line_dan,
                kakutei_ojama: (f.kakutei_ojama - drop_sum(c, mid.line_dan@, 7)) as i32,
                ojama_count: OJAMA_COUNT,
                field_state: if drop_sum(c, mid.line_dan@, 7) == 0 {
                    FieldState::Next
                } else {
                    FieldState::OjamaFall
                },
                ..f
            })
        };
    lemma_walls_heights(f.arrange@, mid.line_dan@);
    law_drop_within_confirmed(f.kakutei_ojama as int, c, mid.line_dan@);
    lemma_drop_sum_low(f.kakutei_ojama as int, c, mid.line_dan@, 7);
    assert forall|a: int, b: int| in_field(a, b) && is_wall_cell(a, b) implies #[trigger] cell(
        mid.arrange@,
        a,
        b,
    ) == WALL by {
        assert(cell(f.arrange@, a, b) == WALL);
        if 1 <= a <= 6 {
            assert(1 <= mid.line_dan@[a]);
        }
    }
    assert(mid.kakutei_ojama == f.kakutei_ojama - drop_sum(c, mid.line_dan@, 7));
}

} // verus!
