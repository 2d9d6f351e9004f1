//! One frame of the falling pair: falling, shifting, turning, landing and
//! fixing into the grid.
use vstd::prelude::*;
use crate::chain::walls_intact;
use crate::field::{
    Field, FieldState, FALL_DOWN_Y, FIX_COUNT, MOVING_CONT_COUNT, MOVING_FIRST_COUNT,
    ROTATE_COUNT,
};
use crate::grid::{cell, get_cell, in_field, is_height, set_cell, FIELD_HEIGHT, FIELD_WIDTH, GRID_LEN, WALL};
use crate::keys::KeyResource;
use crate::piece::{law_left_right_mirror, mirror_dir, mirrored};

verus! {

impl Field {
    /// The state of a field at the start of a frame while its pair moves.
    pub open spec fn move_shape_ok(self) -> bool {
        &&& self.move_mid_ok()
        &&& self.on_ground ==> self.fix_count < FIX_COUNT
    }

    /// The state of a field while its pair moves, within a frame.
    pub open spec fn move_mid_ok(self) -> bool {
        &&& walls_intact(self.arrange@)
        &&& self.line_dan@.len() == FIELD_WIDTH
        &&& forall|c: int|
            0 <= c < FIELD_WIDTH ==> is_height(self.arrange@, c, #[trigger] self.line_dan@[c] as int)
        &&& forall|c: int| 1 <= c <= 6 ==> #[trigger] self.line_dan@[c] <= 20
        &&& 1 <= self.moving_line <= 6
        &&& 0 <= self.moving_dir_idx <= 3
        &&& self.moving_dir_idx == 1 ==> self.moving_line <= 5
        &&& self.moving_dir_idx == 3 ==> self.moving_line >= 2
        &&& 0 <= self.moving_y <= 840
        &&& 0 <= self.fall_count <= 1000
        &&& 0 <= self.fall_next_count <= 1000
        &&& 0 <= self.fix_count < 2 * FIX_COUNT
        &&& 0 <= self.moving_rot_count <= ROTATE_COUNT
        &&& self.fall_down_count >= 0
    }

    /// The counters that grow while the pair moves have room for one frame.
    pub open spec fn move_room(self) -> bool {
        &&& self.fall_down_count < i32::MAX
        &&& self.score < i32::MAX
        &&& self.moving_lr_count > i32::MIN + 2
    }

    /// The field after the pair has fallen for one frame.
    #[verifier::opaque]
    pub open spec fn after_fall(self, down: bool) -> Field {
        let n1 = if !self.on_ground {
            self.fall_next_count + 1
        } else {
            self.fall_next_count as int
        };
        let n2 = if down {
            n1 + self.fall_count
        } else {
            n1
        };
        let fix = if down && self.on_ground {
            self.fix_count + FIX_COUNT
        } else {
            self.fix_count as int
        };
        if n2 >= self.fall_count {
            Field {
                fall_next_count: 0,
                fix_count: fix as i32,
                score: if down && self.fall_down_count % 2 == 0 {
                    (self.score + 1) as i32
                } else {
                    self.score
                },
                fall_down_count: if down {
                    (self.fall_down_count + 1) as i32
                } else {
                    0
                },
                on_ground: self.on_ground || self.blocked_below(FALL_DOWN_Y / 2),
                moving_y: self.landed_y(FALL_DOWN_Y as int) as i32,
                ..self
            }
        } else {
            Field { fall_next_count: n2 as i32, fix_count: fix as i32, ..self }
        }
    }

    /// The field after the left keys of one frame.
    #[verifier::opaque]
    pub open spec fn after_left(self, just_left: bool, left: bool) -> Field {
        let lr1 = if just_left {
            MOVING_FIRST_COUNT as int
        } else {
            self.moving_lr_count as int
        };
        let lr2 = if left {
            if lr1 - 1 == 0 {
                MOVING_CONT_COUNT as int
            } else {
                lr1 - 1
            }
        } else {
            lr1
        };
        let go = (just_left || (left && lr1 - 1 == 0)) && !self.blocked_left();
        Field {
            moving_lr_count: lr2 as i32,
            moving_line: if go {
                (self.moving_line - 1) as usize
            } else {
                self.moving_line
            },
            ..self
        }
    }

    /// The field after the right keys of one frame.
    #[verifier::opaque]
    pub open spec fn after_right(self, just_right: bool, right: bool) -> Field {
        let lr1 = if just_right {
            MOVING_FIRST_COUNT as int
        } else {
            self.moving_lr_count as int
        };
        let lr2 = if right {
            if lr1 - 1 == 0 {
                MOVING_CONT_COUNT as int
            } else {
                lr1 - 1
            }
        } else {
            lr1
        };
        let go = (just_right || (right && lr1 - 1 == 0)) && !self.blocked_right();
        Field {
            moving_lr_count: lr2 as i32,
            moving_line: if go {
                (self.moving_line + 1) as usize
            } else {
                self.moving_line
            },
            ..self
        }
    }

    /// Turning the pair clockwise when the key was just pressed.
    #[verifier::opaque]
    pub open spec fn after_rot_right(self, pressed: bool) -> Field {
        if !pressed {
            self
        } else {
            let s = Field {
                moving_prev_dir_idx: self.moving_dir_idx,
                moving_rot_count: ROTATE_COUNT,
                ..self
            };
            let l = self.moving_line;
            if self.moving_dir_idx == 0 {
                if !(Field { moving_line: (l - 1) as usize, moving_dir_idx: 1, ..s }).blocked_right() {
                    Field { moving_dir_idx: 1, ..s }
                } else if !(Field { moving_dir_idx: 1, ..s }).blocked_left() {
                    Field { moving_line: (l - 1) as usize, moving_dir_idx: 1, ..s }
                } else {
                    Field { moving_dir_idx: 0, moving_rot_count: 0, ..s }
                }
            } else if self.moving_dir_idx == 1 {
                let t = Field { moving_dir_idx: 2, ..s };
                if t.blocked_below(0) {
                    Field { moving_y: t.landed_y(0) as i32, on_ground: true, ..t }
                } else {
                    t
                }
            } else if self.moving_dir_idx == 2 {
                if !(Field { moving_line: (l + 1) as usize, moving_dir_idx: 3, ..s }).blocked_left() {
                    Field { moving_dir_idx: 3, ..s }
                } else if !(Field { moving_dir_idx: 3, ..s }).blocked_right() {
                    Field { moving_line: (l + 1) as usize, moving_dir_idx: 3, ..s }
                } else {
                    Field { moving_dir_idx: 2, moving_rot_count: 0, ..s }
                }
            } else if self.moving_dir_idx == 3 {
                Field { moving_dir_idx: 0, ..s }
            } else {
                s
            }
        }
    }

    /// Turning the pair anticlockwise when the key was just pressed.
    #[verifier::opaque]
    pub open spec fn after_rot_left(self, pressed: bool) -> Field {
        if !pressed {
            self
        } else {
            let s = Field {
                moving_prev_dir_idx: self.moving_dir_idx,
                moving_rot_count: ROTATE_COUNT,
                ..self
            };
            let l = self.moving_line;
            if self.moving_dir_idx == 0 {
                if !(Field { moving_line: (l + 1) as usize, moving_dir_idx: 3, ..s }).blocked_left() {
                    Field { moving_dir_idx: 3, ..s }
                } else if !(Field { moving_dir_idx: 3, ..s }).blocked_right() {
                    Field { moving_line: (l + 1) as usize, moving_dir_idx: 3, ..s }
                } else {
                    Field { moving_dir_idx: 0, moving_rot_count: 0, ..s }
                }
            } else if self.moving_dir_idx == 1 {
                Field { moving_dir_idx: 0, ..s }
            } else if self.moving_dir_idx == 2 {
                if !(Field { moving_line: (l - 1) as usize, moving_dir_idx: 1, ..s }).blocked_right() {
                    Field { moving_dir_idx: 1, ..s }
                } else if !(Field { moving_dir_idx: 1, ..s }).blocked_left() {
                    Field { moving_line: (l - 1) as usize, moving_dir_idx: 1, ..s }
                } else {
                    Field { moving_dir_idx: 2, moving_rot_count: 0, ..s }
                }
            } else if self.moving_dir_idx == 3 {
                let t = Field { moving_dir_idx: 2, ..s };
                if t.blocked_below(0) {
                    Field { moving_y: t.landed_y(0) as i32, on_ground: true, ..t }
                } else {
                    t
                }
            } else {
                s
            }
        }
    }

    /// The pair leaves the ground when there is room below it again.
    #[verifier::opaque]
    pub open spec fn after_detach(self) -> Field {
        if self.on_ground && !self.blocked_below(FALL_DOWN_Y / 2) {
            Field { on_ground: false, ..self }
        } else {
            self
        }
    }
}

pub proof fn lemma_shape_heights(f: Field)
    requires
        f.move_mid_ok(),
    ensures
        f.line_dan@[0] == 22,
        f.line_dan@[7] == 22,
        forall|c: int| 1 <= c <= 6 ==> 1 <= #[trigger] f.line_dan@[c] <= 20,
        f.geometry_ok(),
        f.lh(0) == 880 && f.lh(7) == 880,
{
    assert(is_height(f.arrange@, 0, f.line_dan@[0] as int));
    assert(is_height(f.arrange@, 7, f.line_dan@[7] as int));
    if f.line_dan@[0] < 22 {
        assert(cell(f.arrange@, 0, f.line_dan@[0] as int) == WALL);
    }
    if f.line_dan@[7] < 22 {
        assert(cell(f.arrange@, 7, f.line_dan@[7] as int) == WALL);
    }
    assert forall|c: int| 1 <= c <= 6 implies 1 <= #[trigger] f.line_dan@[c] <= 20 by {
        assert(is_height(f.arrange@, c, f.line_dan@[c] as int));
        if f.line_dan@[c] == 0 {
            assert(cell(f.arrange@, c, 0) == WALL);
        }
    }
    assert forall|c: int| 0 <= c < FIELD_WIDTH implies 0 <= #[trigger] f.line_dan@[c] <= 22 by {
        assert(is_height(f.arrange@, c, f.line_dan@[c] as int));
    }
}


/// Where a pair can land stays within the field's range of heights.
pub proof fn lemma_landed_bounds(f: Field, d: int)
    requires
        f.move_mid_ok(),
        0 <= d <= 40,
    ensures
        0 <= f.landed_y(d) <= 840,
{
    lemma_shape_heights(f);
    let l = f.moving_line as int;
    assert(1 <= f.line_dan@[l] <= 20);
    if f.moving_dir_idx == 1 {
        assert(1 <= f.line_dan@[l + 1] <= 20);
    }
    if f.moving_dir_idx == 3 {
        assert(1 <= f.line_dan@[l - 1] <= 20);
    }
}

impl Field {
    /// Lets the pair fall for one frame: one step every `fall_count` frames,
    /// every frame while down is held.
    pub fn move_fall(&mut self, down: bool)
        requires
            old(self).move_shape_ok(),
            old(self).move_room(),
        ensures
            *final(self) == old(self).after_fall(down),
            final(self).move_mid_ok(),
            final(self).moving_lr_count == old(self).moving_lr_count,
    {
        proof {
            reveal(Field::after_fall);
            lemma_shape_heights(*self);
            lemma_landed_bounds(*self, FALL_DOWN_Y as int);
        }
        if !self.on_ground {
            self.fall_next_count = self.fall_next_count + 1;
        }
        if down {
            self.fall_next_count = self.fall_next_count + self.fall_count;
            if self.on_ground {
                self.fix_count = self.fix_count + FIX_COUNT;
            }
        }
        if self.fall_next_count >= self.fall_count {
            if down {
                if self.fall_down_count % 2 == 0 {
                    self.score = self.score + 1;
                }
                self.fall_down_count = self.fall_down_count + 1;
            } else {
                self.fall_down_count = 0;
            }
            self.fall_next_count = 0;
            if !self.can_down(FALL_DOWN_Y / 2) {
                self.on_ground = true;
                self.fall_next_count = 0;
            }
            self.randing(FALL_DOWN_Y);
        }
    }
}


impl Field {
    /// Shifts the pair one column left when the key was just pressed, or
    /// when it has been held long enough.
    pub fn move_left(&mut self, just_left: bool, left: bool)
        requires
            old(self).move_mid_ok(),
            old(self).moving_lr_count > i32::MIN + 1,
        ensures
            *final(self) == old(self).after_left(just_left, left),
            final(self).move_mid_ok(),
            old(self).moving_lr_count > i32::MIN + 2 ==> final(self).moving_lr_count > i32::MIN + 1,
    {
        proof {
            reveal(Field::after_left);
            lemma_shape_heights(*self);
        }
        let mut go = false;
        if just_left {
            go = true;
            self.moving_lr_count = MOVING_FIRST_COUNT;
        }
        if left {
            self.moving_lr_count = self.moving_lr_count - 1;
            if self.moving_lr_count == 0 {
                go = true;
                self.moving_lr_count = MOVING_CONT_COUNT;
            }
        }
        if go {
            if !self.can_left() {
                go = false;
            }
        }
        if go {
            self.moving_line = self.moving_line - 1;
        }
    }

    /// Shifts the pair one column right when the key was just pressed, or
    /// when it has been held long enough.
    pub fn move_right(&mut self, just_right: bool, right: bool)
        requires
            old(self).move_mid_ok(),
            old(self).moving_lr_count > i32::MIN + 1,
        ensures
            *final(self) == old(self).after_right(just_right, right),
            final(self).move_mid_ok(),
    {
        proof {
            reveal(Field::after_right);
            lemma_shape_heights(*self);
        }
        let mut go = false;
        if just_right {
            go = true;
            self.moving_lr_count = MOVING_FIRST_COUNT;
        }
        if right {
            self.moving_lr_count = self.moving_lr_count - 1;
            if self.moving_lr_count == 0 {
                go = true;
                self.moving_lr_count = MOVING_CONT_COUNT;
            }
        }
        if go {
            if !self.can_right() {
                go = false;
            }
        }
        if go {
            self.moving_line = self.moving_line + 1;
        }
    }

    /// Leaves the ground when there is room below the pair again.
    pub fn detach(&mut self)
        requires
            old(self).move_mid_ok(),
        ensures
            *final(self) == old(self).after_detach(),
            final(self).move_mid_ok(),
    {
        proof {
            reveal(Field::after_detach);
            lemma_shape_heights(*self);
        }
        if self.on_ground {
            if self.can_down(FALL_DOWN_Y / 2) {
                self.on_ground = false;
            }
        }
    }
}


impl Field {
    /// Turns the pair clockwise when the key was just pressed; a pair that
    /// has no room to turn steps aside, or stays as it is.
    pub fn rotate_right(&mut self, pressed: bool)
        requires
            old(self).move_mid_ok(),
        ensures
            *final(self) == old(self).after_rot_right(pressed),
            final(self).move_mid_ok(),
    {
        proof {
            reveal(Field::after_rot_right);
            lemma_shape_heights(*self);
        }
        if !pressed {
            return ;
        }
        self.moving_prev_dir_idx = self.moving_dir_idx;
        self.moving_rot_count = ROTATE_COUNT;
        match self.moving_dir_idx {
            0 => {
                self.moving_line = self.moving_line - 1;
                self.moving_dir_idx = 1;
                if self.can_right() {
                    self.moving_line = self.moving_line + 1;
                } else {
                    self.moving_line = self.moving_line + 1;
                    if self.can_left() {
                        self.moving_line = self.moving_line - 1;
                    } else {
                        self.moving_dir_idx = 0;
                        self.moving_rot_count = 0;
                    }
                }
            },
            1 => {
                self.moving_dir_idx = 2;
                proof {
                    lemma_landed_bounds(*self, 0);
                }
                if !self.can_down(0) {
                    self.randing(0);
                    self.on_ground = true;
                }
            },
            2 => {
                self.moving_line = self.moving_line + 1;
                self.moving_dir_idx = 3;
                if self.can_left() {
                    self.moving_line = self.moving_line - 1;
                } else {
                    self.moving_line = self.moving_line - 1;
                    if self.can_right() {
                        self.moving_line = self.moving_line + 1;
                    } else {
                        self.moving_dir_idx = 2;
                        self.moving_rot_count = 0;
                    }
                }
            },
            3 => {
                self.moving_dir_idx = 0;
            },
            _ => {},
        }
    }

    /// Turns the pair anticlockwise when the key was just pressed; a pair
    /// that has no room to turn steps aside, or stays as it is.
    pub fn rotate_left(&mut self, pressed: bool)
        requires
            old(self).move_mid_ok(),
        ensures
            *final(self) == old(self).after_rot_left(pressed),
            final(self).move_mid_ok(),
    {
        proof {
            reveal(Field::after_rot_left);
            lemma_shape_heights(*self);
        }
        if !pressed {
            return ;
        }
        self.moving_prev_dir_idx = self.moving_dir_idx;
        self.moving_rot_count = ROTATE_COUNT;
        match self.moving_dir_idx {
            2 => {
                self.moving_line = self.moving_line - 1;
                self.moving_dir_idx = 1;
                if self.can_right() {
                    self.moving_line = self.moving_line + 1;
                } else {
                    self.moving_line = self.moving_line + 1;
                    if self.can_left() {
                        self.moving_line = self.moving_line - 1;
                    } else {
                        self.moving_dir_idx = 2;
                        self.moving_rot_count = 0;
                    }
                }
            },
            3 => {
                self.moving_dir_idx = 2;
                proof {
                    lemma_landed_bounds(*self, 0);
                }
                if !self.can_down(0) {
                    self.randing(0);
                    self.on_ground = true;
                }
            },
            0 => {
                self.moving_line = self.moving_line + 1;
                self.moving_dir_idx = 3;
                if self.can_left() {
                    self.moving_line = self.moving_line - 1;
                } else {
                    self.moving_line = self.moving_line - 1;
                    if self.can_right() {
                        self.moving_line = self.moving_line + 1;
                    } else {
                        self.moving_dir_idx = 0;
                        self.moving_rot_count = 0;
                    }
                }
            },
            1 => {
                self.moving_dir_idx = 0;
            },
            _ => {},
        }
    }
}


/// The column of the secondary block of a pair in column `l` turned `d`.
pub open spec fn partner_column(l: int, d: int) -> int {
    if d == 1 {
        l + 1
    } else if d == 3 {
        l - 1
    } else {
        l
    }
}

/// `r` is the lowest row where both columns `c1` and `c2` are empty.
pub open spec fn is_first_free(g: Seq<i32>, c1: int, c2: int, r: int) -> bool {
    &&& 0 <= r < FIELD_HEIGHT
    &&& cell(g, c1, r) == 0
    &&& cell(g, c2, r) == 0
    &&& forall|r2: int| 0 <= r2 < r ==> !(#[trigger] cell(g, c1, r2) == 0 && cell(g, c2, r2) == 0)
}

/// The grid `h` is `g` with the pair of colours `col` (primary, secondary),
/// in column `l` turned `d`, dropped onto the lowest row with room for it;
/// `prim` and `sec` are the cells the two blocks land in.  With no such row
/// nothing is placed and both cells are reported as (0, 0).
pub open spec fn pair_placed(
    g: Seq<i32>,
    h: Seq<i32>,
    l: int,
    d: int,
    col: (i32, i32),
    prim: (usize, usize),
    sec: (usize, usize),
) -> bool {
    let c2 = partner_column(l, d);
    if exists|r: int| is_first_free(g, l, c2, r) {
        let r = choose|r: int| is_first_free(g, l, c2, r);
        let pp = if d == 2 {
            (l, r + 1)
        } else {
            (l, r)
        };
        let sp = if d == 0 {
            (l, r + 1)
        } else if d == 2 {
            (l, r)
        } else {
            (c2, r)
        };
        &&& prim == (pp.0 as usize, pp.1 as usize)
        &&& sec == (sp.0 as usize, sp.1 as usize)
        &&& forall|a: int, b: int|
            in_field(a, b) ==> #[trigger] cell(h, a, b) == (if (a, b) == pp {
                col.0
            } else if (a, b) == sp {
                col.1
            } else {
                cell(g, a, b)
            })
    } else {
        &&& h == g
        &&& prim == (0usize, 0usize)
        &&& sec == (0usize, 0usize)
    }
}

impl Field {
    /// Drops the falling pair onto the lowest row with room for it.
    pub fn fix_pair(&mut self) -> (r: ((usize, usize), (usize, usize)))
        requires
            old(self).move_mid_ok(),
        ensures
            pair_placed(
                old(self).arrange@,
                final(self).arrange@,
                old(self).moving_line as int,
                old(self).moving_dir_idx as int,
                old(self).moving_color_idx,
                r.0,
                r.1,
            ),
            final(self).arrange@.len() == GRID_LEN,
            *final(self) == (Field { arrange: final(self).arrange, ..*old(self) }),
    {
        let ghost g = self.arrange@;
        let l = self.moving_line;
        let d = self.moving_dir_idx;
        let c2 = if d == 1 {
            l + 1
        } else if d == 3 {
            l - 1
        } else {
            l
        };
        let ghost gc2 = partner_column(l as int, d as int);
        assert(c2 == gc2);
        let mut i: usize = 0;
        while i < FIELD_HEIGHT
            invariant
                i <= FIELD_HEIGHT,
                g == old(self).arrange@,
                *self == *old(self),
                self.move_mid_ok(),
                l == self.moving_line,
                d == self.moving_dir_idx,
                c2 == gc2,
                gc2 == partner_column(l as int, d as int),
                1 <= c2 <= 6,
                forall|r2: int|
                    0 <= r2 < i ==> !(#[trigger] cell(g, l as int, r2) == 0 && cell(
                        g,
                        c2 as int,
                        r2,
                    ) == 0),
            decreases FIELD_HEIGHT - i,
        {
            if get_cell(&self.arrange, l, i) == 0 && get_cell(&self.arrange, c2, i) == 0 {
                proof {
                    assert(is_first_free(g, l as int, c2 as int, i as int));
                    if d == 0 || d == 2 {
                        let h = self.line_dan@[l as int] as int;
                        assert(is_height(g, l as int, h));
                        assert(h <= 20);
                        assert(c2 == l);
                        assert(cell(g, l as int, h) == 0);
                        assert(cell(g, c2 as int, h) == 0);
                        assert(i <= h);
                    }
                }
                let (p, s) = self.moving_color_idx;
                let pp: (usize, usize);
                let sp: (usize, usize);
                if d == 0 {
                    pp = (l, i);
                    sp = (l, i + 1);
                } else if d == 2 {
                    sp = (l, i);
                    pp = (l, i + 1);
                } else {
                    pp = (l, i);
                    sp = (c2, i);
                }
                set_cell(&mut self.arrange, pp.0, pp.1, p);
                let ghost mid = self.arrange@;
                set_cell(&mut self.arrange, sp.0, sp.1, s);
                proof {
                    assert(pp != sp);
                    assert forall|a: int, b: int| in_field(a, b) implies #[trigger] cell(
                        self.arrange@,
                        a,
                        b,
                    ) == (if (a, b) == (pp.0 as int, pp.1 as int) {
                        p
                    } else if (a, b) == (sp.0 as int, sp.1 as int) {
                        s
                    } else {
                        cell(g, a, b)
                    }) by {
                        if (a, b) != (sp.0 as int, sp.1 as int) {
                            assert(cell(self.arrange@, a, b) == cell(mid, a, b));
                        }
                    }
                    let r = choose|r: int| is_first_free(g, l as int, c2 as int, r);
                    assert(r == i) by {
                        if r < i {
                            assert(cell(g, l as int, r) == 0 && cell(g, c2 as int, r) == 0);
                        } else if r > i {
                            assert(cell(g, l as int, i as int) == 0 && cell(g, c2 as int, i as int)
                                == 0);
                        }
                    }
                }
                return (pp, sp);
            }
            i = i + 1;
        }
        proof {
            assert forall|r: int| !is_first_free(g, l as int, c2 as int, r) by {
                if 0 <= r < FIELD_HEIGHT {
                    assert(!(cell(g, l as int, r) == 0 && cell(g, c2 as int, r) == 0));
                }
            }
        }
        ((0, 0), (0, 0))
    }
}


impl Field {
    /// The field after the pair has fallen, shifted, turned and left or
    /// touched the ground in one frame, before it is fixed.
    pub open spec fn after_steer<T>(self, k: KeyResource<T>) -> Field {
        self.after_fall(k.down).after_left(k.just_left, k.left).after_right(
            k.just_right,
            k.right,
        ).after_rot_right(k.just_rot_r).after_rot_left(k.just_rot_l).after_detach()
    }

    /// The pair is fixed in this frame: it has rested on the ground for
    /// `FIX_COUNT` frames.
    pub open spec fn fixes(self) -> bool {
        self.on_ground && self.fix_count + 1 >= FIX_COUNT
    }

    /// The end of a frame of the falling pair: a pair that has rested on the
    /// ground for `FIX_COUNT` frames is dropped into the grid; the turning
    /// animation counts down.
    pub fn fix_stage(&mut self) -> (fixed: Option<((usize, usize), (usize, usize))>)
        requires
            old(self).move_mid_ok(),
        ensures
            ({
                let m = *old(self);
                if m.fixes() {
                    &&& fixed matches Some(pr)
                    &&& final(self).arrange@.len() == GRID_LEN
                    &&& pair_placed(
                        m.arrange@,
                        final(self).arrange@,
                        m.moving_line as int,
                        m.moving_dir_idx as int,
                        m.moving_color_idx,
                        pr.0,
                        pr.1,
                    )
                    &&& *final(self) == (Field {
                        arrange: final(self).arrange,
                        fix_count: 0,
                        moving_rot_count: 0,
                        on_ground: false,
                        field_state: FieldState::FallCheck,
                        ..m
                    })
                } else {
                    &&& fixed is None
                    &&& *final(self) == (Field {
                        fix_count: if m.on_ground {
                            (m.fix_count + 1) as i32
                        } else {
                            m.fix_count
                        },
                        moving_rot_count: if m.moving_rot_count > 0 {
                            (m.moving_rot_count - 1) as i32
                        } else {
                            m.moving_rot_count
                        },
                        ..m
                    })
                    &&& final(self).move_shape_ok()
                }
            }),
    {
        let mut fixed = None;
        if self.on_ground {
            self.fix_count = self.fix_count + 1;
            if self.fix_count >= FIX_COUNT {
                self.fix_count = 0;
                self.moving_rot_count = 0;
                self.on_ground = false;
                fixed = Some(self.fix_pair());
            }
        }
        if self.moving_rot_count > 0 {
            self.moving_rot_count = self.moving_rot_count - 1;
        }
        if fixed.is_some() {
            self.field_state = FieldState::FallCheck;
        }
        fixed
    }

    /// One frame of the falling pair under the keys `keys`.  Once the pair
    /// has rested long enough on the ground it is dropped into the grid, the
    /// field goes on to let blocks fall, and the cells of the primary and the
    /// secondary block are returned.
    pub fn step_move<T>(&mut self, keys: &KeyResource<T>) -> (fixed: Option<
        ((usize, usize), (usize, usize)),
    >)
        requires
            old(self).move_shape_ok(),
            old(self).move_room(),
        ensures
            old(self).after_steer(*keys).move_mid_ok(),
            ({
                let m = old(self).after_steer(*keys);
                if m.fixes() {
                    &&& fixed matches Some(pr)
                    &&& final(self).arrange@.len() == GRID_LEN
                    &&& pair_placed(
                        m.arrange@,
                        final(self).arrange@,
                        m.moving_line as int,
                        m.moving_dir_idx as int,
                        m.moving_color_idx,
                        pr.0,
                        pr.1,
                    )
                    &&& *final(self) == (Field {
                        arrange: final(self).arrange,
                        fix_count: 0,
                        moving_rot_count: 0,
                        on_ground: false,
                        field_state: FieldState::FallCheck,
                        ..m
                    })
                } else {
                    &&& fixed is None
                    &&& *final(self) == (Field {
                        fix_count: if m.on_ground {
                            (m.fix_count + 1) as i32
                        } else {
                            m.fix_count
                        },
                        moving_rot_count: if m.moving_rot_count > 0 {
                            (m.moving_rot_count - 1) as i32
                        } else {
                            m.moving_rot_count
                        },
                        ..m
                    })
                    &&& final(self).move_shape_ok()
                }
            }),
    {
        self.move_fall(keys.down);
        self.move_left(keys.just_left, keys.left);
        self.move_right(keys.just_right, keys.right);
        self.rotate_right(keys.just_rot_r);
        self.rotate_left(keys.just_rot_l);
        self.detach();
        assert(*self == old(self).after_steer(*keys));
        self.fix_stage()
    }
}


/// In a grid with its walls, heights of the wall columns are 22 and of the
/// playing columns at least 1.
pub proof fn lemma_walls_heights(g: Seq<i32>, dan: Seq<i32>)
    requires
        walls_intact(g),
        dan.len() == FIELD_WIDTH,
        forall|c: int| 0 <= c < FIELD_WIDTH ==> is_height(g, c, #[trigger] dan[c] as int),
    ensures
        forall|c: int| 0 <= c < FIELD_WIDTH ==> 1 <= #[trigger] dan[c] <= 22,
{
    assert forall|c: int| 0 <= c < FIELD_WIDTH implies 1 <= #[trigger] dan[c] <= 22 by {
        assert(is_height(g, c, dan[c] as int));
        if dan[c] == 0 {
            assert(cell(g, c, 0) == WALL);
        }
    }
}


/// Moving the pair about leaves the grid, the counted heights, the state,
/// the colours and the frame counter alone.
pub proof fn lemma_steer_keeps<T>(f: Field, k: KeyResource<T>)
    ensures
        f.after_steer(k).elapsed_frame == f.elapsed_frame,
        f.after_steer(k).arrange == f.arrange,
        f.after_steer(k).line_dan == f.line_dan,
        f.after_steer(k).field_state == f.field_state,
        f.after_steer(k).moving_color_idx == f.moving_color_idx,
        f.after_steer(k).next_color_idx == f.next_color_idx,
        f.after_steer(k).fall_count == f.fall_count,
        f.after_steer(k).ojama_sent_score == f.ojama_sent_score,
        f.after_steer(k).kakutei_ojama == f.kakutei_ojama,
        f.after_steer(k).kari_ojama == f.kari_ojama,
        f.after_steer(k).rensa_num == f.rensa_num,
        f.after_steer(k).score == f.after_fall(k.down).score,
        f.score < i32::MAX ==> f.score <= f.after_steer(k).score,
{
    reveal(Field::after_fall);
    reveal(Field::after_left);
    reveal(Field::after_right);
    reveal(Field::after_rot_right);
    reveal(Field::after_rot_left);
    reveal(Field::after_detach);
}


/// A turn of an upright or upside-down pair that took place is undone, in
/// direction, by the opposite turn.
pub proof fn law_turn_undone(f: Field)
    requires
        f.move_mid_ok(),
        f.moving_dir_idx == 0 || f.moving_dir_idx == 2,
    ensures
        f.after_rot_right(true).moving_dir_idx != f.moving_dir_idx ==> f.after_rot_right(
            true,
        ).after_rot_left(true).moving_dir_idx == f.moving_dir_idx,
        f.after_rot_left(true).moving_dir_idx != f.moving_dir_idx ==> f.after_rot_left(
            true,
        ).after_rot_right(true).moving_dir_idx == f.moving_dir_idx,
{
    reveal(Field::after_rot_right);
    reveal(Field::after_rot_left);
}

/// Turning anticlockwise is turning clockwise seen in a mirror, and the
/// other way round: on mirrored fields the two turns leave mirrored pairs,
/// with the same turning count and the same contact with the ground.
pub proof fn law_turn_mirror(f: Field, m: Field)
    requires
        mirrored(f, m),
        0 <= f.moving_dir_idx <= 3,
        1 <= f.moving_line <= 6,
        f.moving_dir_idx == 1 ==> f.moving_line <= 5,
        f.moving_dir_idx == 3 ==> f.moving_line >= 2,
        f.on_ground == m.on_ground,
        f.moving_rot_count == m.moving_rot_count,
    ensures
        mirrored(f.after_rot_right(true), m.after_rot_left(true)),
        f.after_rot_right(true).moving_rot_count == m.after_rot_left(true).moving_rot_count,
        f.after_rot_right(true).on_ground == m.after_rot_left(true).on_ground,
        mirrored(f.after_rot_left(true), m.after_rot_right(true)),
        f.after_rot_left(true).moving_rot_count == m.after_rot_right(true).moving_rot_count,
        f.after_rot_left(true).on_ground == m.after_rot_right(true).on_ground,
{
    reveal(Field::after_rot_right);
    reveal(Field::after_rot_left);
    let l = f.moving_line as int;
    assert(m.line_dan@[7 - l] == f.line_dan@[l]);
    assert(m.line_dan@[7 - l - 1] == f.line_dan@[l + 1]);
    assert(m.line_dan@[7 - l + 1] == f.line_dan@[l - 1]);
    if f.moving_dir_idx == 1 {
        assert(m.line_dan@[7 - l - 2] == f.line_dan@[l + 2]);
    }
    if f.moving_dir_idx == 3 {
        assert(m.line_dan@[7 - l + 2] == f.line_dan@[l - 2]);
    }
}

/// Shifting left is shifting right seen in a mirror, key repeat included:
/// on mirrored fields with the same repeat counter, the same keys shift
/// the pairs into mirrored columns and leave the same counter.
pub proof fn law_shift_mirror(f: Field, m: Field, just: bool, held: bool)
    requires
        mirrored(f, m),
        0 <= f.moving_dir_idx <= 3,
        1 <= f.moving_line <= 6,
        f.moving_dir_idx == 1 ==> f.moving_line <= 5,
        f.moving_dir_idx == 3 ==> f.moving_line >= 2,
        f.moving_lr_count == m.moving_lr_count,
    ensures
        mirrored(f.after_right(just, held), m.after_left(just, held)),
        f.after_right(just, held).moving_lr_count == m.after_left(just, held).moving_lr_count,
        mirrored(f.after_left(just, held), m.after_right(just, held)),
        f.after_left(just, held).moving_lr_count == m.after_right(just, held).moving_lr_count,
{
    reveal(Field::after_left);
    reveal(Field::after_right);
    law_left_right_mirror(f, m);
}

/// A clockwise turn of an upright pair puts the second block to the right
/// when that column has room; otherwise it steps one column left when that
/// column has room; only when neither has room is the turn refused.
pub proof fn law_turn_kick(f: Field)
    requires
        f.move_mid_ok(),
        f.moving_dir_idx == 0,
    ensures
        ({
            let g = f.after_rot_right(true);
            let l = f.moving_line as int;
            let y = f.moving_y as int;
            &&& f.lh(l + 1) <= y ==> g.moving_dir_idx == 1 && g.moving_line == f.moving_line
            &&& f.lh(l + 1) > y && f.lh(l - 1) <= y ==> g.moving_dir_idx == 1 && g.moving_line
                == l - 1
            &&& f.lh(l + 1) > y && f.lh(l - 1) > y ==> g.moving_dir_idx == 0 && g.moving_line
                == f.moving_line && g.moving_rot_count == 0
            &&& g.moving_dir_idx == 1 ==> g.moving_rot_count == ROTATE_COUNT
            &&& g.moving_y == f.moving_y
        }),
{
    reveal(Field::after_rot_right);
}

/// Holding a shift key repeats the shift: while the key is held the repeat
/// counter counts down by one each frame, and when it runs out the pair
/// shifts if there is room and the counter starts again at
/// `MOVING_CONT_COUNT`; a fresh press shifts at once and starts the counter
/// at `MOVING_FIRST_COUNT`.
pub proof fn law_key_repeat(f: Field)
    requires
        f.move_mid_ok(),
        f.moving_lr_count > i32::MIN + 1,
    ensures
        f.moving_lr_count == 1 && !f.blocked_left() ==> f.after_left(false, true).moving_line
            == f.moving_line - 1,
        f.moving_lr_count == 1 ==> f.after_left(false, true).moving_lr_count == MOVING_CONT_COUNT,
        f.moving_lr_count != 1 ==> f.after_left(false, true).moving_line == f.moving_line
            && f.after_left(false, true).moving_lr_count == f.moving_lr_count - 1,
        !f.blocked_left() ==> f.after_left(true, false).moving_line == f.moving_line - 1,
        f.after_left(true, false).moving_lr_count == MOVING_FIRST_COUNT,
        f.after_left(true, true).moving_lr_count == MOVING_FIRST_COUNT - 1,
        f.moving_lr_count == 1 && !f.blocked_right() ==> f.after_right(false, true).moving_line
            == f.moving_line + 1,
        f.moving_lr_count == 1 ==> f.after_right(false, true).moving_lr_count == MOVING_CONT_COUNT,
        f.moving_lr_count != 1 ==> f.after_right(false, true).moving_line == f.moving_line
            && f.after_right(false, true).moving_lr_count == f.moving_lr_count - 1,
        !f.blocked_right() ==> f.after_right(true, false).moving_line == f.moving_line + 1,
        f.after_right(true, false).moving_lr_count == MOVING_FIRST_COUNT,
        f.after_right(true, true).moving_lr_count == MOVING_FIRST_COUNT - 1,
{
    reveal(Field::after_left);
    reveal(Field::after_right);
}

} // verus!
