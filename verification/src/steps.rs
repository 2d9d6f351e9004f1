//! One frame of a field: what each state of the field does, and what the
//! surrounding game has to do about it (draw, send messages, spawn blocks).
use vstd::prelude::*;
use crate::chain::{chain_step, in_big_group, scan_order, take_all, cleared_cells, positions, walls_intact, big_group_cells, bonus_multiplier, cleared};
use crate::field::{
    Field, FieldState, BLOCK_SIZE, DELETE_BLINK, DELETE_END, OJAMA_COUNT, SPAWN_LINE, SPAWN_ROW,
};
use crate::game_statics::{Reset, Transition, TransitionEvent};
use crate::grid::{
    cell, empty_grid, get_cell, grid_wf, in_field, is_height, is_wall_cell, set_cell,
    FIELD_DISP_HEIGHT, FIELD_WIDTH, GRID_LEN, EMPTY, OJAMA,
};
use crate::gravity::{fall_check, fallen, settled, is_move};
use crate::keys::KeyResource;
use crate::moving::pair_placed;
use crate::ojama::{spread_ojama, spread_ok};
use crate::rng::{create_next, dealt, reset_seed, NextRngResource};

verus! {

/// What the game around a field has to do after one frame of it.
pub enum FieldEffect {
    /// Nothing beyond drawing the field.
    Nothing,
    /// The field was set up anew: draw its walls and show the next pair.
    Started { next: (i32, i32) },
    /// The field is full: it has lost.
    Lost,
    /// The next pair entered the field; show the pair after it.
    NewPair { next: (i32, i32) },
    /// The falling pair was dropped into these cells (primary, secondary).
    Fixed { primary: (usize, usize), secondary: (usize, usize) },
    /// These blocks fall: column, row they leave, row they land in.
    Fell { moves: Vec<(usize, usize, usize)> },
    /// These cells are emptied by a chain step.
    Cleared { cells: Vec<(usize, usize)> },
    /// Announce this many garbage blocks to the opponent.
    SendOjama { num: i32 },
    /// Confirm the announced garbage blocks, as of this frame; these
    /// garbage blocks (column, row, place in the column's stack) drop in.
    ConfirmOjama { frame: i32, drops: Vec<(usize, usize, usize)> },
    /// The field has topped out: tell the game.
    Died,
}

impl Field {
    /// What a frame of the field's current state needs.
    pub open spec fn ready(self) -> bool {
        &&& (self.field_state != FieldState::Wait && self.field_state != FieldState::Init
            ==> self.elapsed_frame < i32::MAX)
        &&& match self.field_state {
            FieldState::Next => self.arrange@.len() == GRID_LEN,
            FieldState::Move => self.move_shape_ok() && self.move_room(),
            FieldState::FallCheck => self.arrange@.len() == GRID_LEN,
            FieldState::DeleteCheck => walls_intact(self.arrange@) && 0 <= self.rensa_num <= 18,
            FieldState::Delete => {
                &&& 0 <= self.ojama_sent_score <= self.score
                &&& 0 <= self.base_score <= 720
                &&& 1 <= self.bonus_multiply <= 1256
                &&& self.delete_count == DELETE_BLINK ==> self.score + self.base_score
                    * self.bonus_multiply <= i32::MAX
                &&& self.delete_count < i32::MAX
            },
            FieldState::OjamaFallCheck => {
                &&& walls_intact(self.arrange@)
                &&& 0 <= self.kakutei_ojama <= i32::MAX - 100
            },
            _ => true,
        }
    }

    /// Setting the field up for a new game.
    pub open spec fn init_post(old: Field, new: Field, eff: FieldEffect) -> bool {
        &&& eff matches FieldEffect::Started { next }
        &&& 1 <= next.0 <= 4 && 1 <= next.1 <= 4
        &&& grid_wf(new.arrange@)
        &&& forall|i: int, j: int|
            in_field(i, j) && !is_wall_cell(i, j) ==> #[trigger] cell(new.arrange@, i, j) == EMPTY
        &&& new == (Field {
            arrange: new.arrange,
            next_color_idx: next,
            score: 0,
            kakutei_ojama: 0,
            kari_ojama: 0,
            ojama_sent_score: 0,
            ojama_count: OJAMA_COUNT,
            field_state: FieldState::Wait,
            ..old
        })
    }

    /// Bringing the next pair in, unless the spawn cell is taken.
    pub open spec fn next_post(old: Field, new: Field, eff: FieldEffect) -> bool {
        if cell(old.arrange@, SPAWN_LINE as int, FIELD_DISP_HEIGHT as int) != EMPTY {
            &&& eff is Lost
            &&& new == (Field { field_state: FieldState::Lose, ..old })
        } else {
            &&& eff matches FieldEffect::NewPair { next }
            &&& 1 <= next.0 <= 4 && 1 <= next.1 <= 4
            &&& new.line_dan@.len() == FIELD_WIDTH
            &&& forall|i: int|
                0 <= i < FIELD_WIDTH ==> is_height(new.arrange@, i, #[trigger] new.line_dan@[i] as int)
            &&& new == (Field {
                line_dan: new.line_dan,
                rensa_num: 0,
                moving_line: SPAWN_LINE,
                fall_next_count: 0,
                moving_lr_count: 0,
                moving_dir_idx: 0,
                moving_y: (SPAWN_ROW * BLOCK_SIZE) as i32,
                moving_color_idx: old.next_color_idx,
                next_color_idx: next,
                field_state: FieldState::Move,
                ..old
            })
        }
    }

    /// One frame of the falling pair (see `step_move`).
    pub open spec fn move_post<T>(old: Field, keys: KeyResource<T>, new: Field, eff: FieldEffect) -> bool {
        let m = old.after_steer(keys);
        &&& m.move_mid_ok()
        &&& if m.fixes() {
            &&& eff matches FieldEffect::Fixed { primary, secondary }
            &&& new.arrange@.len() == GRID_LEN
            &&& pair_placed(
                m.arrange@,
                new.arrange@,
                m.moving_line as int,
                m.moving_dir_idx as int,
                m.moving_color_idx,
                primary,
                secondary,
            )
            &&& new == (Field {
                arrange: new.arrange,
                fix_count: 0,
                moving_rot_count: 0,
                on_ground: false,
                field_state: FieldState::FallCheck,
                ..m
            })
        } else {
            &&& eff is Nothing
            &&& new == (Field {
                fix_count: if m.on_ground {
                    (m.fix_count + 1) as i32
                } else {
                    m.fix_count
                },
                moving_rot_count: if m.moving_rot_count > 0 {
                    (m.moving_rot_count - 1) as i32
                } else {
                    m.moving_rot_count
                },
                ..m
            })
            &&& new.move_shape_ok()
        }
    }

    /// Letting every block fall into the gaps below it.
    pub open spec fn fall_check_post(old: Field, new: Field, eff: FieldEffect) -> bool {
        &&& eff matches FieldEffect::Fell { moves }
        &&& fallen(old.arrange@, new.arrange@)
        &&& settled(new.arrange@)
        &&& moves@.no_duplicates()
        &&& (forall|k: int| 0 <= k < moves@.len() ==> is_move(old.arrange@, #[trigger] moves@[k]))
        &&& (forall|m: (usize, usize, usize)| is_move(old.arrange@, m) ==> moves@.contains(m))
        &&& new == (Field { arrange: new.arrange, field_state: FieldState::Fall, ..old })
    }

    /// One chain step: the large groups and the garbage next to them go.
    pub open spec fn delete_check_post(old: Field, new: Field, eff: FieldEffect) -> bool {
        let g = old.arrange@;
        &&& eff matches FieldEffect::Cleared { cells }
        &&& positions(cells@).no_duplicates()
        &&& positions(cells@).to_set() == cleared_cells(g)
        &&& positions(cells@).subrange(0, big_group_cells(g).len() as int) == scan_order(g, 7, 1).0
        &&& positions(cells@).subrange(big_group_cells(g).len() as int, cells@.len() as int)
            == take_all(g, scan_order(g, 7, 1).0, big_group_cells(g).len() as int).0
        &&& forall|a: int, b: int|
            in_field(a, b) ==> #[trigger] cell(new.arrange@, a, b) == (if cleared(g, (a, b)) {
                0i32
            } else {
                cell(g, a, b)
            })
        &&& new.arrange@.len() == GRID_LEN
        &&& new.base_score == 10 * big_group_cells(g).len()
        &&& new.bonus_multiply == bonus_multiplier(g, old.rensa_num + 1)
        &&& 0 <= new.base_score <= 720
        &&& 1 <= new.bonus_multiply <= 1256
        &&& new == (Field {
            arrange: new.arrange,
            rensa_num: (old.rensa_num + 1) as i32,
            base_score: (10 * big_group_cells(g).len()) as i32,
            bonus_multiply: bonus_multiplier(g, old.rensa_num + 1) as i32,
            delete_count: if cells@.len() != 0 {
                0
            } else {
                old.delete_count
            },
            field_state: if cells@.len() != 0 {
                FieldState::Delete
            } else {
                FieldState::OjamaFallCheck
            },
            ..old
        })
    }

    /// The score after a frame of the cleared blocks vanishing: the chain
    /// step's points are counted when they stop blinking.
    pub open spec fn delete_score(old: Field) -> int {
        if old.delete_count == DELETE_BLINK {
            old.score + old.base_score * old.bonus_multiply
        } else {
            old.score as int
        }
    }

    /// The garbage blocks announced at the end of the vanishing: one per
    /// `SCORE_PER_OJAMA` points not yet sent.
    pub open spec fn delete_sent(old: Field) -> int {
        (Field::delete_score(old) - old.ojama_sent_score) / 70
    }

    /// The field after a frame of the cleared blocks vanishing.
    pub open spec fn delete_next(old: Field) -> Field {
        if old.delete_count > DELETE_END {
            Field {
                score: Field::delete_score(old) as i32,
                ojama_sent_score: (old.ojama_sent_score + 70 * Field::delete_sent(old)) as i32,
                field_state: FieldState::FallCheck,
                delete_count: (old.delete_count + 1) as i32,
                ..old
            }
        } else {
            Field {
                score: Field::delete_score(old) as i32,
                delete_count: (old.delete_count + 1) as i32,
                ..old
            }
        }
    }

    /// One frame of the cleared blocks vanishing: the score is counted when
    /// they stop blinking, and when they are gone the garbage earned is
    /// announced and the blocks above fall.
    pub open spec fn delete_post(old: Field, new: Field, eff: FieldEffect) -> bool {
        &&& new == Field::delete_next(old)
        &&& if old.delete_count > DELETE_END {
            eff matches FieldEffect::SendOjama { num } && num == Field::delete_sent(old)
        } else {
            eff is Nothing
        }
    }

    /// The field after `n` frames of the cleared blocks vanishing.
    pub open spec fn delete_frames(f: Field, n: nat) -> Field
        decreases n,
    {
        if n == 0 {
            f
        } else {
            Field::delete_next(Field::delete_frames(f, (n - 1) as nat))
        }
    }

    /// Letting a still field go on once all its blocks have settled.
    pub open spec fn settle_post(old: Field, new: Field, eff: FieldEffect, is_settled: bool, next: FieldState) -> bool {
        &&& eff is Nothing
        &&& new == (if is_settled {
            Field { field_state: next, ..old }
        } else {
            old
        })
    }
}

impl Field {
    /// Sets the field up for a new game: walls and an empty playing area,
    /// a new next pair, no score and no garbage; then waits for the start.
    pub fn step_init<T>(&mut self, rng: &mut NextRngResource<T>) -> (eff: FieldEffect)
        ensures
            final(rng).seed() == old(rng).seed(),
            eff matches FieldEffect::Started { next } && dealt(old(rng).drawn(), final(rng).drawn(), next),
            Field::init_post(*old(self), *final(self), eff),
    {
        self.arrange = empty_grid();
        let next = create_next(rng);
        self.next_color_idx = next;
        self.score = 0;
        self.kakutei_ojama = 0;
        self.kari_ojama = 0;
        self.ojama_sent_score = 0;
        self.ojama_count = OJAMA_COUNT;
        self.field_state = FieldState::Wait;
        FieldEffect::Started { next }
    }

    /// Brings the next pair into the field at the spawn point, or loses when
    /// the spawn cell is taken.
    pub fn step_next<T>(&mut self, rng: &mut NextRngResource<T>) -> (eff: FieldEffect)
        requires
            old(self).arrange@.len() == GRID_LEN,
        ensures
            final(rng).seed() == old(rng).seed(),
            eff matches FieldEffect::NewPair { next } ==> dealt(old(rng).drawn(), final(rng).drawn(), next),
            eff is Lost ==> final(rng).drawn() == old(rng).drawn(),
            Field::next_post(*old(self), *final(self), eff),
    {
        if get_cell(&self.arrange, SPAWN_LINE, FIELD_DISP_HEIGHT) != EMPTY {
            self.field_state = FieldState::Lose;
            return FieldEffect::Lost;
        }
        self.rensa_num = 0;
        self.moving_line = SPAWN_LINE;
        self.fall_next_count = 0;
        self.moving_lr_count = 0;
        self.moving_dir_idx = 0;
        self.moving_y = SPAWN_ROW * BLOCK_SIZE;
        self.moving_color_idx = self.next_color_idx;
        let next = create_next(rng);
        self.next_color_idx = next;
        self.update_line_height();
        self.field_state = FieldState::Move;
        FieldEffect::NewPair { next }
    }

    /// One frame of the falling pair.
    pub fn step_pair<T>(&mut self, keys: &KeyResource<T>) -> (eff: FieldEffect)
        requires
            old(self).move_shape_ok(),
            old(self).move_room(),
        ensures
            Field::move_post(*old(self), *keys, *final(self), eff),
    {
        match self.step_move(keys) {
            Some((primary, secondary)) => FieldEffect::Fixed { primary, secondary },
            None => FieldEffect::Nothing,
        }
    }

    /// Lets every block fall into the gaps below it.
    pub fn step_fall_check(&mut self) -> (eff: FieldEffect)
        requires
            old(self).arrange@.len() == GRID_LEN,
        ensures
            Field::fall_check_post(*old(self), *final(self), eff),
    {
        let moves = fall_check(&mut self.arrange);
        self.field_state = FieldState::Fall;
        FieldEffect::Fell { moves }
    }

    /// Goes on to the chain check once the falling blocks have settled.
    pub fn step_fall(&mut self, is_settled: bool) -> (eff: FieldEffect)
        ensures
            Field::settle_post(*old(self), *final(self), eff, is_settled, FieldState::DeleteCheck),
    {
        if is_settled {
            self.field_state = FieldState::DeleteCheck;
        }
        FieldEffect::Nothing
    }

    /// One chain step, as `delete` of the field: counts the link of the
    /// chain, clears the large groups with the garbage next to them, and
    /// records the base score and multiplier.
    pub fn delete(&mut self) -> (cells: Vec<(usize, usize)>)
        requires
            walls_intact(old(self).arrange@),
            0 <= old(self).rensa_num <= 18,
        ensures
            positions(cells@).no_duplicates(),
            positions(cells@).to_set() == cleared_cells(old(self).arrange@),
            forall|k: int|
                0 <= k < cells@.len() ==> (in_big_group(
                    old(self).arrange@,
                    #[trigger] positions(cells@)[k],
                ) <==> k < big_group_cells(old(self).arrange@).len()),
            positions(cells@).subrange(0, big_group_cells(old(self).arrange@).len() as int)
                == scan_order(old(self).arrange@, 7, 1).0,
            positions(cells@).subrange(
                big_group_cells(old(self).arrange@).len() as int,
                cells@.len() as int,
            ) == take_all(
                old(self).arrange@,
                scan_order(old(self).arrange@, 7, 1).0,
                big_group_cells(old(self).arrange@).len() as int,
            ).0,
            forall|a: int, b: int|
                in_field(a, b) ==> #[trigger] cell(final(self).arrange@, a, b) == (if cleared(
                    old(self).arrange@,
                    (a, b),
                ) {
                    0i32
                } else {
                    cell(old(self).arrange@, a, b)
                }),
            final(self).arrange@.len() == GRID_LEN,
            walls_intact(final(self).arrange@),
            *final(self) == (Field {
                arrange: final(self).arrange,
                rensa_num: (old(self).rensa_num + 1) as i32,
                base_score: (10 * big_group_cells(old(self).arrange@).len()) as i32,
                bonus_multiply: bonus_multiplier(old(self).arrange@, old(self).rensa_num + 1) as i32,
                ..*old(self)
            }),
            final(self).base_score == 10 * big_group_cells(old(self).arrange@).len(),
            final(self).bonus_multiply == bonus_multiplier(
                old(self).arrange@,
                old(self).rensa_num + 1,
            ),
            0 <= final(self).base_score <= 720,
            1 <= final(self).bonus_multiply <= 1256,
    {
        self.rensa_num = self.rensa_num + 1;
        let (cells, base, bonus) = chain_step(&mut self.arrange, self.rensa_num);
        self.base_score = base;
        self.bonus_multiply = bonus;
        cells
    }

    /// The chain check: clears what a chain step clears and goes on to let
    /// it vanish, or, when nothing is cleared, to the garbage blocks.
    pub fn step_delete_check(&mut self) -> (eff: FieldEffect)
        requires
            walls_intact(old(self).arrange@),
            0 <= old(self).rensa_num <= 18,
        ensures
            Field::delete_check_post(*old(self), *final(self), eff),
    {
        let cells = self.delete();
        if cells.len() != 0 {
            self.delete_count = 0;
            self.field_state = FieldState::Delete;
        } else {
            self.field_state = FieldState::OjamaFallCheck;
        }
        FieldEffect::Cleared { cells }
    }

    /// One frame of cleared blocks vanishing.
    pub fn step_delete(&mut self) -> (eff: FieldEffect)
        requires
            0 <= old(self).ojama_sent_score <= old(self).score,
            0 <= old(self).base_score <= 720,
            1 <= old(self).bonus_multiply <= 1256,
            old(self).delete_count == DELETE_BLINK ==> old(self).score + old(self).base_score
                * old(self).bonus_multiply <= i32::MAX,
            old(self).delete_count < i32::MAX,
        ensures
            Field::delete_post(*old(self), *final(self), eff),
    {
        if self.delete_count == DELETE_BLINK {
            assert(self.base_score * self.bonus_multiply <= 720 * 1256) by (nonlinear_arith)
                requires
                    0 <= self.base_score <= 720,
                    1 <= self.bonus_multiply <= 1256,
            ;
            assert(self.base_score * self.bonus_multiply >= 0) by (nonlinear_arith)
                requires
                    0 <= self.base_score <= 720,
                    1 <= self.bonus_multiply <= 1256,
            ;
            self.score = self.score + self.base_score * self.bonus_multiply;
        }
        let mut eff = FieldEffect::Nothing;
        if self.delete_count > DELETE_END {
            let num = self.send_ojama();
            eff = FieldEffect::SendOjama { num };
            self.field_state = FieldState::FallCheck;
        }
        self.delete_count = self.delete_count + 1;
        eff
    }

    /// Goes on to the next pair once the dropped garbage has settled.
    pub fn step_ojama_fall(&mut self, is_settled: bool) -> (eff: FieldEffect)
        ensures
            Field::settle_post(*old(self), *final(self), eff, is_settled, FieldState::Next),
    {
        if is_settled {
            self.field_state = FieldState::Next;
        }
        FieldEffect::Nothing
    }

    /// A lost field tells the game and stops.
    pub fn step_lose(&mut self) -> (eff: FieldEffect)
        ensures
            eff is Died,
            *final(self) == (Field { field_state: FieldState::LoseFall, ..*old(self) }),
    {
        self.field_state = FieldState::LoseFall;
        FieldEffect::Died
    }
}


/// Garbage blocks a column takes: as many as it was given, but no more than
/// fit below row 13.
pub open spec fn drop_count(given: int, dan: int) -> int {
    if given < 13 - dan {
        given
    } else {
        13 - dan
    }
}

/// Sum of the blocks the columns 1..`n` take.
pub open spec fn drop_sum(c: Seq<i32>, dan: Seq<i32>, n: int) -> int
    decreases n,
{
    if n <= 1 {
        0
    } else {
        drop_sum(c, dan, n - 1) + drop_count(c[n - 1] as int, dan[n - 1] as int)
    }
}

/// `drops` lists the garbage blocks dropped into `h` by the shares `c` on
/// columns of heights `dan`.
pub open spec fn ojama_dropped(
    g: Seq<i32>,
    h: Seq<i32>,
    c: Seq<i32>,
    dan: Seq<i32>,
    drops: Seq<(usize, usize, usize)>,
) -> bool {
    &&& h.len() == GRID_LEN
    &&& forall|a: int, b: int|
        in_field(a, b) ==> #[trigger] cell(h, a, b) == (if 1 <= a <= 6 && dan[a] <= b < dan[a]
            + drop_count(c[a] as int, dan[a] as int) {
            OJAMA
        } else {
            cell(g, a, b)
        })
    &&& drops.no_duplicates()
    &&& forall|k: int|
        0 <= k < drops.len() ==> 1 <= (#[trigger] drops[k]).0 <= 6 && drops[k].1 == dan[drops[k].0 as int]
            + drops[k].2 && drops[k].2 < drop_count(c[drops[k].0 as int] as int, dan[drops[k].0 as int] as int)
    &&& forall|a: usize, j: usize|
        1 <= a <= 6 && j < drop_count(c[a as int] as int, dan[a as int] as int) ==> #[trigger] drops.contains(
            (a, (dan[a as int] + j) as usize, j),
        )
}

impl Field {
    /// Dropping the confirmed garbage blocks.
    pub open spec fn ojama_fall_check_post(old: Field, new: Field, eff: FieldEffect) -> bool {
        &&& eff matches FieldEffect::ConfirmOjama { frame, drops }
        &&& frame == old.elapsed_frame
        &&& if old.kakutei_ojama == 0 {
            &&& drops@.len() == 0
            &&& new == (Field { field_state: FieldState::Next, ..old })
        } else {
            exists|c: Seq<i32>|
                {
                    &&& spread_ok(old.kakutei_ojama as int, c)
                    &&& new.line_dan@.len() == FIELD_WIDTH
                    &&& (forall|i: int|
                        0 <= i < FIELD_WIDTH ==> is_height(
                            old.arrange@,
                            i,
                            #[trigger] new.line_dan@[i] as int,
                        ))
                    &&& ojama_dropped(old.arrange@, new.arrange@, c, new.line_dan@, drops@)
                    &&& new == (Field {
                        arrange: new.arrange,
                        line_dan: new.line_dan,
                        kakutei_ojama: (old.kakutei_ojama - drop_sum(c, new.line_dan@, 7)) as i32,
                        ojama_count: OJAMA_COUNT,
                        field_state: if drop_sum(c, new.line_dan@, 7) == 0 {
                            FieldState::Next
                        } else {
                            FieldState::OjamaFall
                        },
                        ..old
                    })
                }
        }
    }

    /// Confirms the garbage announced to this field as of this frame and
    /// drops the confirmed garbage blocks on top of the columns.
    pub fn step_ojama_fall_check(&mut self) -> (eff: FieldEffect)
        requires
            walls_intact(old(self).arrange@),
            0 <= old(self).kakutei_ojama <= i32::MAX - 100,
        ensures
            Field::ojama_fall_check_post(*old(self), *final(self), eff),
    {
        let frame = self.elapsed_frame;
        let mut drops: Vec<(usize, usize, usize)> = Vec::new();
        if self.kakutei_ojama == 0 {
            self.field_state = FieldState::Next;
            return FieldEffect::ConfirmOjama { frame, drops };
        }
        let ghost g = self.arrange@;
        let c = spread_ojama(self.kakutei_ojama);
        self.update_line_height();
        proof {
            crate::moving::lemma_walls_heights(g, self.line_dan@);
            assert forall|a: int| 1 <= a <= 6 implies 0 <= #[trigger] c@[a] <= 5 by {
            }
        }
        let ghost mid = *self;
        let mut sum: i32 = 0;
        let mut i: usize = 1;
        while i < 7
            invariant
                1 <= i <= 7,
                *self == (Field { arrange: self.arrange, ..mid }),
                mid == (Field { line_dan: mid.line_dan, ..*old(self) }),
                0 <= old(self).kakutei_ojama <= i32::MAX - 100,
                forall|a: int|
                    0 <= a < FIELD_WIDTH ==> is_height(g, a, #[trigger] mid.line_dan@[a] as int),
                spread_ok(old(self).kakutei_ojama as int, c@),
                g == old(self).arrange@,
                self.arrange@.len() == GRID_LEN,
                self.line_dan@.len() == FIELD_WIDTH,
                c@.len() == 8,
                forall|a: int| 1 <= a <= 6 ==> 0 <= #[trigger] c@[a] <= 5,
                forall|a: int| 1 <= a <= 6 ==> 1 <= #[trigger] self.line_dan@[a] <= 22,
                sum == drop_sum(c@, self.line_dan@, i as int),
                -9 * (i - 1) <= sum <= 5 * (i - 1),
                forall|a: int, b: int|
                    in_field(a, b) ==> #[trigger] cell(self.arrange@, a, b) == (if 1 <= a < i
                        && self.line_dan@[a] <= b < self.line_dan@[a] + drop_count(
                        c@[a] as int,
                        self.line_dan@[a] as int,
                    ) {
                        OJAMA
                    } else {
                        cell(g, a, b)
                    }),
                drops@.no_duplicates(),
                forall|k: int|
                    0 <= k < drops@.len() ==> 1 <= (#[trigger] drops@[k]).0 < i && drops@[k].1
                        == self.line_dan@[drops@[k].0 as int] + drops@[k].2 && drops@[k].2 < drop_count(
                        c@[drops@[k].0 as int] as int,
                        self.line_dan@[drops@[k].0 as int] as int,
                    ),
                forall|a: usize, j: usize|
                    1 <= a < i && j < drop_count(
                        c@[a as int] as int,
                        self.line_dan@[a as int] as int,
                    ) ==> #[trigger] drops@.contains((a, (self.line_dan@[a as int] + j) as usize, j)),
            decreases 7 - i,
        {
            let dan = self.line_dan[i];
            let room = 13 - dan;
            let n = if c[i] < room {
                c[i]
            } else {
                room
            };
            sum = sum + n;
            let ghost arr0 = self.arrange@;
            let ghost d0 = drops@;
            drop_into_column(&mut self.arrange, &mut drops, i, dan, n);
            proof {
                let m = if n > 0 { n as int } else { 0int };
                assert forall|a: int, b: int|
                    in_field(a, b) implies #[trigger] cell(self.arrange@, a, b) == (if 1 <= a < i + 1
                        && self.line_dan@[a] <= b < self.line_dan@[a] + drop_count(
                        c@[a] as int,
                        self.line_dan@[a] as int,
                    ) {
                        OJAMA
                    } else {
                        cell(g, a, b)
                    }) by {
                    assert(cell(arr0, a, b) == (if 1 <= a < i && self.line_dan@[a] <= b
                        < self.line_dan@[a] + drop_count(c@[a] as int, self.line_dan@[a] as int) {
                        OJAMA
                    } else {
                        cell(g, a, b)
                    }));
                }
                assert forall|k1: int, k2: int|
                    0 <= k1 < drops@.len() && 0 <= k2 < drops@.len() && k1 != k2 implies drops@[k1]
                    != drops@[k2] by {
                    if k1 >= d0.len() {
                        assert(drops@[d0.len() + (k1 - d0.len())] == drops@[k1]);
                    }
                    if k2 >= d0.len() {
                        assert(drops@[d0.len() + (k2 - d0.len())] == drops@[k2]);
                    }
                    if k1 < d0.len() && k2 < d0.len() {
                        assert(drops@[k1] == d0[k1] && drops@[k2] == d0[k2]);
                    } else if k1 < d0.len() {
                        assert(drops@[k1] == d0[k1]);
                        assert(d0[k1].0 < i);
                    } else if k2 < d0.len() {
                        assert(drops@[k2] == d0[k2]);
                        assert(d0[k2].0 < i);
                    }
                }
                assert forall|k: int|
                    0 <= k < drops@.len() implies 1 <= (#[trigger] drops@[k]).0 < i + 1 && drops@[k].1
                        == self.line_dan@[drops@[k].0 as int] + drops@[k].2 && drops@[k].2 < drop_count(
                        c@[drops@[k].0 as int] as int,
                        self.line_dan@[drops@[k].0 as int] as int,
                    ) by {
                    if k < d0.len() {
                        assert(drops@[k] == d0[k]);
                    } else {
                        assert(drops@[d0.len() + (k - d0.len())] == drops@[k]);
                    }
                }
                assert forall|a: usize, jj: usize|
                    1 <= a < i + 1 && jj < drop_count(
                        c@[a as int] as int,
                        self.line_dan@[a as int] as int,
                    ) implies #[trigger] drops@.contains(
                    (a, (self.line_dan@[a as int] + jj) as usize, jj),
                ) by {
                    if a == i {
                        assert(drops@[d0.len() + jj] == (a, (self.line_dan@[a as int] + jj) as usize, jj));
                    } else {
                        assert(d0.contains((a, (self.line_dan@[a as int] + jj) as usize, jj)));
                        let k = choose|k: int|
                            0 <= k < d0.len() && d0[k] == (a, (self.line_dan@[a as int] + jj) as usize, jj);
                        assert(drops@[k] == d0[k]);
                    }
                }
            }
            i = i + 1;
        }
        if sum == 0 {
            self.field_state = FieldState::Next;
        } else {
            self.field_state = FieldState::OjamaFall;
        }
        self.kakutei_ojama = self.kakutei_ojama - sum;
        self.ojama_count = OJAMA_COUNT;
        proof {
            assert(spread_ok(old(self).kakutei_ojama as int, c@));
        }
        FieldEffect::ConfirmOjama { frame, drops }
    }
}


/// Drops `n` garbage blocks onto column `i` of height `dan` and lists them.
fn drop_into_column(
    arr: &mut Vec<i32>,
    drops: &mut Vec<(usize, usize, usize)>,
    i: usize,
    dan: i32,
    n: i32,
)
    requires
        old(arr)@.len() == GRID_LEN,
        1 <= i <= 6,
        1 <= dan <= 22,
        n <= 13 - dan,
        n <= 5,
    ensures
        final(arr)@.len() == GRID_LEN,
        forall|a: int, b: int|
            in_field(a, b) ==> #[trigger] cell(final(arr)@, a, b) == (if a == i && dan <= b < dan
                + n {
                OJAMA
            } else {
                cell(old(arr)@, a, b)
            }),
        final(drops)@.len() == old(drops)@.len() + (if n > 0 {
            n as int
        } else {
            0
        }),
        forall|k: int| 0 <= k < old(drops)@.len() ==> #[trigger] final(drops)@[k] == old(drops)@[k],
        forall|j: int|
            0 <= j < n ==> #[trigger] final(drops)@[old(drops)@.len() + j] == (
                i,
                (dan + j) as usize,
                j as usize,
            ),
{
    let mut j: usize = 0;
    while (j as i32) < n
        invariant
            1 <= i <= 6,
            1 <= dan <= 22,
            n <= 13 - dan,
            n <= 5,
            j <= 12,
            n > 0 ==> j <= n,
            n <= 0 ==> j == 0,
            arr@.len() == GRID_LEN,
            forall|a: int, b: int|
                in_field(a, b) ==> #[trigger] cell(arr@, a, b) == (if a == i && dan <= b < dan + j {
                    OJAMA
                } else {
                    cell(old(arr)@, a, b)
                }),
            drops@.len() == old(drops)@.len() + j,
            forall|k: int| 0 <= k < old(drops)@.len() ==> #[trigger] drops@[k] == old(drops)@[k],
            forall|jj: int|
                0 <= jj < j ==> #[trigger] drops@[old(drops)@.len() + jj] == (
                    i,
                    (dan + jj) as usize,
                    jj as usize,
                ),
        decreases 13 - j,
    {
        let row = dan as usize + j;
        set_cell(arr, i, row, OJAMA);
        drops.push((i, row, j));
        j = j + 1;
    }
}


/// What the score line of a field shows.
#[derive(PartialEq, Eq, Structural, Clone, Copy, Debug)]
pub enum ScoreText {
    /// The score.
    Score(i32),
    /// The base score and the multiplier of the chain step being cleared.
    Chain(i32, i32),
}

/// The seed a field sends to reset the game when it is set up: only the
/// first player's field sends one, drawn from the system's generator.
pub fn setup_reset_seed(player_id: i32) -> (seed: Option<u64>)
    ensures
        seed is Some <==> player_id == 0,
{
    if player_id == 0 {
        Some(reset_seed())
    } else {
        None
    }
}

impl Field {
    /// What the score line shows.
    pub fn ui_text(&self) -> (t: ScoreText)
        ensures
            t == (if self.field_state == FieldState::Delete {
                ScoreText::Chain(self.base_score, self.bonus_multiply)
            } else {
                ScoreText::Score(self.score)
            }),
    {
        if self.field_state == FieldState::Delete {
            ScoreText::Chain(self.base_score, self.bonus_multiply)
        } else {
            ScoreText::Score(self.score)
        }
    }

    /// Takes in a transition of the match: a finish lost by the other player
    /// wins this field; a start brings the first pair in.
    pub fn receive_transition(&mut self, player_id: i32, cmd: &TransitionEvent)
        ensures
            *final(self) == (if cmd.transition == Transition::Start {
                Field { field_state: FieldState::Next, ..*old(self) }
            } else if cmd.transition == Transition::Finish && cmd.player_id != player_id {
                Field { field_state: FieldState::Win, ..*old(self) }
            } else {
                *old(self)
            }),
    {
        if cmd.transition == Transition::Finish {
            if player_id != cmd.player_id {
                self.field_state = FieldState::Win;
            }
        }
        if cmd.transition == Transition::Start {
            self.field_state = FieldState::Next;
        }
    }

    /// Takes in a reset of the game: the pairs are dealt anew from its seed
    /// and the field is set up again.
    pub fn receive_reset<T>(&mut self, rng: &mut NextRngResource<T>, rst: &Reset)
        ensures
            *final(self) == (Field { field_state: FieldState::Init, ..*old(self) }),
            final(rng).seed() == Some(rst.0),
    {
        rng.reseed(rst.0);
        self.field_state = FieldState::Init;
    }

    /// One frame of the field (see `update`): what each state does, and the
    /// frame counter, which counts the frame unless the field ends up
    /// waiting or has just lost because the spawn cell is taken.
    pub open spec fn frame_post<T>(
        old_f: Field,
        keys: KeyResource<T>,
        new_f: Field,
        eff: FieldEffect,
        is_settled: bool,
    ) -> bool {
        &&& new_f.elapsed_frame == old_f.elapsed_frame + (if new_f.field_state != FieldState::Wait
            && !(eff is Lost) {
            1int
        } else {
            0
        })
        &&& {
            let mid = Field { elapsed_frame: old_f.elapsed_frame, ..new_f };
            match old_f.field_state {
                FieldState::Init => Field::init_post(old_f, mid, eff),
                FieldState::Next => Field::next_post(old_f, mid, eff),
                FieldState::Move => Field::move_post(old_f, keys, mid, eff),
                FieldState::FallCheck => Field::fall_check_post(old_f, mid, eff),
                FieldState::Fall => Field::settle_post(
                    old_f,
                    mid,
                    eff,
                    is_settled,
                    FieldState::DeleteCheck,
                ),
                FieldState::DeleteCheck => Field::delete_check_post(old_f, mid, eff),
                FieldState::Delete => Field::delete_post(old_f, mid, eff),
                FieldState::OjamaFallCheck => Field::ojama_fall_check_post(old_f, mid, eff),
                FieldState::OjamaFall => Field::settle_post(
                    old_f,
                    mid,
                    eff,
                    is_settled,
                    FieldState::Next,
                ),
                FieldState::Lose => eff is Died && mid == (Field {
                    field_state: FieldState::LoseFall,
                    ..old_f
                }),
                _ => eff is Nothing && mid == old_f,
            }
        }
    }

    /// One frame of the field.  The keys are those of this frame;
    /// `is_settled` tells whether every block drawn has come to rest.  The
    /// frame is counted unless the field ends up waiting or has just lost
    /// because the spawn cell is taken.
    pub fn update<T>(
        &mut self,
        keys: &KeyResource<T>,
        rng: &mut NextRngResource<T>,
        is_settled: bool,
    ) -> (eff: FieldEffect)
        requires
            old(self).ready(),
        ensures
            Field::frame_post(*old(self), *keys, *final(self), eff, is_settled),
            old(self).field_state == FieldState::Next && eff is Lost ==> final(self).elapsed_frame
                == old(self).elapsed_frame,
            final(rng).seed() == old(rng).seed(),
            eff matches FieldEffect::Started { next } ==> dealt(old(rng).drawn(), final(rng).drawn(), next),
            eff matches FieldEffect::NewPair { next } ==> dealt(old(rng).drawn(), final(rng).drawn(), next),
            !(eff is Started || eff is NewPair) ==> final(rng).drawn() == old(rng).drawn(),
    {
        let eff = match self.field_state {
            FieldState::Init => {
                let e = self.step_init(rng);
                assert(self.elapsed_frame == old(self).elapsed_frame);
                e
            },
            FieldState::Next => {
                let e = self.step_next(rng);
                assert(self.elapsed_frame == old(self).elapsed_frame);
                e
            },
            FieldState::Move => {
                let e = self.step_pair(keys);
                proof {
                    crate::moving::lemma_steer_keeps(*old(self), *keys);
                }
                assert(self.elapsed_frame == old(self).elapsed_frame);
                e
            },
            FieldState::FallCheck => {
                let e = self.step_fall_check();
                assert(self.elapsed_frame == old(self).elapsed_frame);
                e
            },
            FieldState::Fall => {
                let e = self.step_fall(is_settled);
                assert(self.elapsed_frame == old(self).elapsed_frame);
                e
            },
            FieldState::DeleteCheck => {
                let e = self.step_delete_check();
                assert(self.elapsed_frame == old(self).elapsed_frame);
                e
            },
            FieldState::Delete => {
                let e = self.step_delete();
                assert(self.elapsed_frame == old(self).elapsed_frame);
                e
            },
            FieldState::OjamaFallCheck => {
                let e = self.step_ojama_fall_check();
                assert(self.elapsed_frame == old(self).elapsed_frame);
                e
            },
            FieldState::OjamaFall => {
                let e = self.step_ojama_fall(is_settled);
                assert(self.elapsed_frame == old(self).elapsed_frame);
                e
            },
            FieldState::Lose => {
                let e = self.step_lose();
                assert(self.elapsed_frame == old(self).elapsed_frame);
                e
            },
            _ => FieldEffect::Nothing,
        };
        let lost = match eff {
            FieldEffect::Lost => true,
            _ => false,
        };
        if self.field_state != FieldState::Wait && !lost {
            self.elapsed_frame = self.elapsed_frame + 1;
        }
        eff
    }
}


proof fn lemma_drop_sum_le(c: Seq<i32>, dan: Seq<i32>, n: int)
    requires
        1 <= n <= 7,
        c.len() == 8,
        dan.len() == 8,
    ensures
        drop_sum(c, dan, n) <= crate::ojama::sum_cols(c, n),
    decreases n,
{
    if n > 1 {
        lemma_drop_sum_le(c, dan, n - 1);
    }
}

/// No more garbage blocks drop than are confirmed, so the confirmed count
/// never goes below zero.
pub proof fn law_drop_within_confirmed(k: int, c: Seq<i32>, dan: Seq<i32>)
    requires
        k >= 0,
        spread_ok(k, c),
        dan.len() == 8,
    ensures
        drop_sum(c, dan, 7) <= k,
{
    lemma_drop_sum_le(c, dan, 7);
    if k >= 30 {
        reveal_with_fuel(crate::ojama::sum_cols, 8);
        assert(c[1] == 5 && c[2] == 5 && c[3] == 5 && c[4] == 5 && c[5] == 5 && c[6] == 5);
    }
}

/// The vanishing of a chain step lasts 42 frames: the frame counter grows
/// by one each frame, the chain step's points are counted on the 31st frame
/// and on no other, and the field stays in the vanishing until its 42nd
/// frame, which goes on to let the blocks above fall.
pub proof fn law_delete_phase(f: Field, n: nat)
    requires
        f.field_state == FieldState::Delete,
        f.delete_count == 0,
        0 <= f.base_score * f.bonus_multiply,
        f.score + f.base_score * f.bonus_multiply <= i32::MAX,
        n <= 42,
    ensures
        Field::delete_frames(f, n).delete_count == n,
        Field::delete_frames(f, n).score == f.score + (if n >= 31 {
            f.base_score * f.bonus_multiply
        } else {
            0
        }),
        Field::delete_frames(f, n).base_score == f.base_score,
        Field::delete_frames(f, n).bonus_multiply == f.bonus_multiply,
        (Field::delete_frames(f, n).field_state == FieldState::Delete) <==> n < 42,
        n == 42 ==> Field::delete_frames(f, n).field_state == FieldState::FallCheck,
    decreases n,
{
    if n > 0 {
        law_delete_phase(f, (n - 1) as nat);
    }
}

/// A field that has lost tells the game once: its first frame after the
/// loss reports the death and leaves it fallen, and a fallen field's frames
/// report nothing and change nothing but the frame counter.
pub proof fn law_death_told_once<T>(
    f: Field,
    keys: KeyResource<T>,
    g: Field,
    eff: FieldEffect,
    is_settled: bool,
)
    requires
        f.field_state == FieldState::Lose || f.field_state == FieldState::LoseFall,
        Field::frame_post(f, keys, g, eff, is_settled),
    ensures
        g.field_state == FieldState::LoseFall,
        (eff is Died) <==> f.field_state == FieldState::Lose,
        f.field_state == FieldState::LoseFall ==> eff is Nothing,
        g.elapsed_frame == f.elapsed_frame + 1,
        g == (Field {
            field_state: FieldState::LoseFall,
            elapsed_frame: g.elapsed_frame,
            ..f
        }),
{
}

/// Garbage is sent only for points not yet sent: a frame of the vanishing
/// that announces garbage announces one block for every 70 points scored
/// and not yet sent, and marks exactly those points as sent; no other frame
/// marks points as sent.  So the points marked as sent stay a multiple of
/// 70, and the blocks sent over a game add up to them divided by 70.
pub proof fn law_send_unsent_points<T>(
    f: Field,
    keys: KeyResource<T>,
    g: Field,
    eff: FieldEffect,
    is_settled: bool,
)
    requires
        f.field_state == FieldState::Delete,
        f.ready(),
        Field::frame_post(f, keys, g, eff, is_settled),
    ensures
        f.score <= g.score,
        (eff is SendOjama) <==> f.delete_count > DELETE_END,
        eff matches FieldEffect::SendOjama { num } ==> {
            &&& num == (g.score - f.ojama_sent_score) / 70
            &&& g.ojama_sent_score == f.ojama_sent_score + 70 * num
            &&& 0 <= g.score - g.ojama_sent_score < 70
        },
        !(eff is SendOjama) ==> g.ojama_sent_score == f.ojama_sent_score,
        f.ojama_sent_score % 70 == 0 ==> g.ojama_sent_score % 70 == 0,
{
    assert(0 <= f.base_score * f.bonus_multiply) by (nonlinear_arith)
        requires
            0 <= f.base_score,
            1 <= f.bonus_multiply,
    ;
}

} // verus!
