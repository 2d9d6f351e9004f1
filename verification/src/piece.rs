//! The falling pair: whether it can move down, left or right, and landing.
use vstd::prelude::*;
use crate::field::{Field, BLOCK_SIZE};
use crate::grid::FIELD_WIDTH;

verus! {

/// The larger of two integers.
pub open spec fn max_int(a: int, b: int) -> int {
    if a > b {
        a
    } else {
        b
    }
}

impl Field {
    /// The counted heights are in range and the pair's height is moderate.
    pub open spec fn geometry_ok(self) -> bool {
        &&& self.line_dan@.len() == FIELD_WIDTH
        &&& forall|c: int| 0 <= c < FIELD_WIDTH ==> 0 <= #[trigger] self.line_dan@[c] <= 22
        &&& -2000 <= self.moving_y <= 2000
    }

    /// The columns the pair occupies are columns of the field.
    pub open spec fn pair_in_field(self) -> bool {
        &&& 0 <= self.moving_line < FIELD_WIDTH
        &&& self.moving_dir_idx == 1 ==> self.moving_line + 1 < FIELD_WIDTH
        &&& self.moving_dir_idx == 3 ==> self.moving_line >= 1
    }

    /// The pair would be stopped moving down by `d` pixels.
    pub open spec fn blocked_below(self, d: int) -> bool {
        let y = self.moving_y as int;
        let l = self.moving_line as int;
        if self.moving_dir_idx == 0 {
            self.lh(l) > y - d
        } else if self.moving_dir_idx == 1 {
            self.lh(l) > y - d || self.lh(l + 1) > y - d
        } else if self.moving_dir_idx == 2 {
            self.lh(l) > y - BLOCK_SIZE - d
        } else if self.moving_dir_idx == 3 {
            // This direction looks one pixel down whatever the distance.
            self.lh(l) > y - 1 || self.lh(l - 1) > y - 1
        } else {
            false
        }
    }

    /// Where the pair ends up after moving down by `d` pixels: on top of
    /// what is below when it is stopped, `d` pixels lower otherwise.
    pub open spec fn landed_y(self, d: int) -> int {
        let y = self.moving_y as int;
        let l = self.moving_line as int;
        if !self.blocked_below(d) {
            y - d
        } else if self.moving_dir_idx == 0 {
            self.lh(l)
        } else if self.moving_dir_idx == 1 {
            max_int(self.lh(l), self.lh(l + 1))
        } else if self.moving_dir_idx == 2 {
            self.lh(l) + BLOCK_SIZE
        } else {
            max_int(self.lh(l), self.lh(l - 1))
        }
    }

    /// The pair would hit something moving one column left.
    pub open spec fn blocked_left(self) -> bool {
        let y = self.moving_y as int;
        let l = self.moving_line as int;
        if self.moving_dir_idx == 0 || self.moving_dir_idx == 1 {
            self.lh(l - 1) > y
        } else if self.moving_dir_idx == 2 {
            self.lh(l - 1) > y - BLOCK_SIZE
        } else if self.moving_dir_idx == 3 {
            self.lh(l - 2) > y
        } else {
            false
        }
    }

    /// The pair would hit something moving one column right.
    pub open spec fn blocked_right(self) -> bool {
        let y = self.moving_y as int;
        let l = self.moving_line as int;
        if self.moving_dir_idx == 0 || self.moving_dir_idx == 3 {
            self.lh(l + 1) > y
        } else if self.moving_dir_idx == 1 {
            self.lh(l + 2) > y
        } else if self.moving_dir_idx == 2 {
            self.lh(l + 1) > y - BLOCK_SIZE
        } else {
            false
        }
    }

    /// Whether the pair can move down by `down_diff` pixels.
    pub fn can_down(&self, down_diff: i32) -> (r: bool)
        requires
            self.geometry_ok(),
            self.pair_in_field(),
            0 <= down_diff <= 40,
        ensures
            r == !self.blocked_below(down_diff as int),
    {
        let y = self.moving_y;
        let l = self.moving_line;
        match self.moving_dir_idx {
            0 => {
                if self.line_dan[l] * BLOCK_SIZE > y - down_diff {
                    return false;
                }
            },
            1 => {
                if self.line_dan[l] * BLOCK_SIZE > y - down_diff || self.line_dan[l + 1] * BLOCK_SIZE
                    > y - down_diff {
                    return false;
                }
            },
            2 => {
                if self.line_dan[l] * BLOCK_SIZE > y - BLOCK_SIZE - down_diff {
                    return false;
                }
            },
            3 => {
                if self.line_dan[l] * BLOCK_SIZE > y - 1 || self.line_dan[l - 1] * BLOCK_SIZE > y
                    - 1 {
                    return false;
                }
            },
            _ => {},
        }
        true
    }

    /// Moves the pair down by `down_diff` pixels, or onto what stops it.
    pub fn randing(&mut self, down_diff: i32)
        requires
            old(self).geometry_ok(),
            old(self).pair_in_field(),
            0 <= down_diff <= 40,
        ensures
            *final(self) == (Field {
                moving_y: old(self).landed_y(down_diff as int) as i32,
                ..*old(self)
            }),
            final(self).moving_y == old(self).landed_y(down_diff as int),
    {
        let y = self.moving_y;
        let l = self.moving_line;
        match self.moving_dir_idx {
            0 => {
                let h = self.line_dan[l] * BLOCK_SIZE;
                if h > y - down_diff {
                    self.moving_y = h;
                    return ;
                }
            },
            1 => {
                let h0 = self.line_dan[l] * BLOCK_SIZE;
                let h1 = self.line_dan[l + 1] * BLOCK_SIZE;
                if h0 > y - down_diff || h1 > y - down_diff {
                    self.moving_y = if h0 > h1 {
                        h0
                    } else {
                        h1
                    };
                    return ;
                }
            },
            2 => {
                let h = self.line_dan[l] * BLOCK_SIZE;
                if h > y - BLOCK_SIZE - down_diff {
                    self.moving_y = h + BLOCK_SIZE;
                    return ;
                }
            },
            3 => {
                let h0 = self.line_dan[l] * BLOCK_SIZE;
                let h1 = self.line_dan[l - 1] * BLOCK_SIZE;
                if h0 > y - 1 || h1 > y - 1 {
                    self.moving_y = if h0 > h1 {
                        h0
                    } else {
                        h1
                    };
                    return ;
                }
            },
            _ => {},
        }
        self.moving_y = y - down_diff;
    }

    /// Whether the pair can move one column left.
    pub fn can_left(&self) -> (r: bool)
        requires
            self.geometry_ok(),
            self.moving_line < FIELD_WIDTH,
            (0 <= self.moving_dir_idx <= 2) ==> self.moving_line >= 1,
            self.moving_dir_idx == 3 ==> self.moving_line >= 2,
        ensures
            r == !self.blocked_left(),
    {
        let y = self.moving_y;
        let l = self.moving_line;
        match self.moving_dir_idx {
            0 => {
                if self.line_dan[l - 1] * BLOCK_SIZE > y {
                    return false;
                }
            },
            1 => {
                if self.line_dan[l - 1] * BLOCK_SIZE > y {
                    return false;
                }
            },
            2 => {
                if self.line_dan[l - 1] * BLOCK_SIZE > y - BLOCK_SIZE {
                    return false;
                }
            },
            3 => {
                if self.line_dan[l - 2] * BLOCK_SIZE > y {
                    return false;
                }
            },
            _ => {},
        }
        true
    }

    /// Whether the pair can move one column right.
    pub fn can_right(&self) -> (r: bool)
        requires
            self.geometry_ok(),
            self.moving_dir_idx != 1 ==> self.moving_line + 1 < FIELD_WIDTH,
            self.moving_dir_idx == 1 ==> self.moving_line + 2 < FIELD_WIDTH,
        ensures
            r == !self.blocked_right(),
    {
        let y = self.moving_y;
        let l = self.moving_line;
        match self.moving_dir_idx {
            0 => {
                if self.line_dan[l + 1] * BLOCK_SIZE > y {
                    return false;
                }
            },
            1 => {
                if self.line_dan[l + 2] * BLOCK_SIZE > y {
                    return false;
                }
            },
            2 => {
                if self.line_dan[l + 1] * BLOCK_SIZE > y - BLOCK_SIZE {
                    return false;
                }
            },
            3 => {
                if self.line_dan[l + 1] * BLOCK_SIZE > y {
                    return false;
                }
            },
            _ => {},
        }
        true
    }
}

/// The direction of the secondary block seen in a mirror: right and left
/// swap, above and below stay.
pub open spec fn mirror_dir(d: int) -> int {
    if d == 1 {
        3
    } else if d == 3 {
        1
    } else {
        d
    }
}

/// `m` is `f` seen in a mirror: the columns are reversed, the pair stands
/// in the mirrored column at the same height, turned the mirrored way.
pub open spec fn mirrored(f: Field, m: Field) -> bool {
    &&& f.line_dan@.len() == FIELD_WIDTH
    &&& m.line_dan@.len() == FIELD_WIDTH
    &&& forall|k: int| 0 <= k < FIELD_WIDTH ==> #[trigger] m.line_dan@[k] == f.line_dan@[7 - k]
    &&& m.moving_line == 7 - f.moving_line
    &&& m.moving_dir_idx == mirror_dir(f.moving_dir_idx as int)
    &&& m.moving_y == f.moving_y
}

/// Moving right is moving left seen in a mirror: a pair in the mirrored
/// field is stopped on the left exactly where the pair is stopped on the
/// right, and the other way round.
pub proof fn law_left_right_mirror(f: Field, m: Field)
    requires
        mirrored(f, m),
        0 <= f.moving_dir_idx <= 3,
        1 <= f.moving_line <= 6,
        f.moving_dir_idx == 1 ==> f.moving_line <= 5,
        f.moving_dir_idx == 3 ==> f.moving_line >= 2,
    ensures
        m.blocked_left() == f.blocked_right(),
        m.blocked_right() == f.blocked_left(),
{
    let l = f.moving_line as int;
    assert(m.line_dan@[7 - l] == f.line_dan@[l]);
    assert(m.line_dan@[7 - l - 1] == f.line_dan@[l + 1]);
    assert(m.line_dan@[7 - l + 1] == f.line_dan@[l - 1]);
    if f.moving_dir_idx == 1 {
        assert(m.line_dan@[7 - l - 2] == f.line_dan@[l + 2]);
    }
    if f.moving_dir_idx == 3 {
        assert(m.line_dan@[7 - l + 2] == f.line_dan@[l - 2]);
    }
}

} // verus!
