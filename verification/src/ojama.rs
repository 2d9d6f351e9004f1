//! Garbage blocks ("ojama"): what a field receives, what it sends, and the
//! row of icons that shows how many are pending.
use vstd::prelude::*;
use crate::field::{Field, OJAMA_COUNT, SCORE_PER_OJAMA};
use crate::game_statics::Ojama;
use crate::rng::random_u32;

verus! {

/// Width of the icon row for pending garbage blocks, in pixels.
pub const MAX_OJAMA_DISP_X: i32 = 240;
pub const OJAMA_SMALL_SIZE: i32 = 16;
pub const OJAMA_BIG_SIZE: i32 = 34;
pub const OJAMA_ROCK_SIZE: i32 = 40;

/// An icon of pending garbage blocks: one, six or thirty blocks.
#[derive(PartialEq, Eq, Structural, Clone, Copy, Debug)]
pub enum OjamaType {
    Small,
    Big,
    Rock,
}

/// Blocks that an icon stands for.
pub open spec fn icon_blocks(t: OjamaType) -> int {
    match t {
        OjamaType::Small => 1,
        OjamaType::Big => 6,
        OjamaType::Rock => 30,
    }
}

/// Width of an icon in pixels.
pub open spec fn icon_size(t: OjamaType) -> int {
    match t {
        OjamaType::Small => OJAMA_SMALL_SIZE as int,
        OjamaType::Big => OJAMA_BIG_SIZE as int,
        OjamaType::Rock => OJAMA_ROCK_SIZE as int,
    }
}

/// The largest icon for `remain` pending blocks, if any.
pub open spec fn largest_icon(remain: int) -> Option<OjamaType> {
    if remain >= 30 {
        Some(OjamaType::Rock)
    } else if remain >= 6 {
        Some(OjamaType::Big)
    } else if remain >= 1 {
        Some(OjamaType::Small)
    } else {
        None
    }
}

/// The icons for `remain` pending blocks from the offset `pos` on: the
/// largest icon that fits the count is placed while it fits the row.
pub open spec fn icons(remain: int, pos: int) -> Seq<(OjamaType, int)>
    decreases remain,
{
    match largest_icon(remain) {
        Some(t) => if pos + icon_size(t) > MAX_OJAMA_DISP_X {
            Seq::empty()
        } else {
            seq![(t, pos)] + icons(remain - icon_blocks(t), pos + icon_size(t))
        },
        None => Seq::empty(),
    }
}

/// Number of blocks the icons stand for.
pub open spec fn icons_total(s: Seq<(OjamaType, int)>) -> int
    decreases s.len(),
{
    if s.len() == 0 {
        0
    } else {
        icon_blocks(s[0].0) + icons_total(s.drop_first())
    }
}

/// The icons for `remain` pending garbage blocks: each with its offset in
/// pixels along the row.
pub fn ojama_icons(remain: i32) -> (v: Vec<(OjamaType, i32)>)
    ensures
        v@.len() == icons(remain as int, 0).len(),
        forall|k: int|
            0 <= k < v@.len() ==> (#[trigger] v@[k]).0 == icons(remain as int, 0)[k].0 && v@[k].1
                == icons(remain as int, 0)[k].1,
{
    let mut v: Vec<(OjamaType, i32)> = Vec::new();
    let mut pos: i32 = 0;
    let mut rest = remain;
    loop
        invariant
            0 <= pos <= MAX_OJAMA_DISP_X,
            rest <= remain,
            icons(remain as int, 0) =~= icons_of(v@) + icons(rest as int, pos as int),
        ensures
            icons(remain as int, 0) =~= icons_of(v@),
        decreases rest,
    {
        let t: OjamaType;
        let size: i32;
        let blocks: i32;
        if rest >= 30 {
            t = OjamaType::Rock;
            size = OJAMA_ROCK_SIZE;
            blocks = 30;
        } else if rest >= 6 {
            t = OjamaType::Big;
            size = OJAMA_BIG_SIZE;
            blocks = 6;
        } else if rest >= 1 {
            t = OjamaType::Small;
            size = OJAMA_SMALL_SIZE;
            blocks = 1;
        } else {
            proof {
                assert(icons(rest as int, pos as int) =~= Seq::<(OjamaType, int)>::empty());
            }
            break;
        }
        if pos + size > MAX_OJAMA_DISP_X {
            proof {
                assert(icons(rest as int, pos as int) =~= Seq::<(OjamaType, int)>::empty());
            }
            break;
        }
        proof {
            lemma_icons_of_push(v@, (t, pos));
        }
        v.push((t, pos));
        pos = pos + size;
        rest = rest - blocks;
    }
    v
}

/// The icons of a list, with offsets as integers.
pub open spec fn icons_of(v: Seq<(OjamaType, i32)>) -> Seq<(OjamaType, int)> {
    v.map_values(|e: (OjamaType, i32)| (e.0, e.1 as int))
}

proof fn lemma_icons_of_push(v: Seq<(OjamaType, i32)>, e: (OjamaType, i32))
    ensures
        icons_of(v.push(e)) == icons_of(v) + seq![(e.0, e.1 as int)],
{
    assert(icons_of(v.push(e)) =~= icons_of(v) + seq![(e.0, e.1 as int)]);
}

/// The icons never stand for more blocks than are pending and always fit
/// the row.
pub proof fn law_icons_fit(remain: int, pos: int)
    requires
        0 <= pos,
    ensures
        icons_total(icons(remain, pos)) <= (if remain > 0 {
            remain
        } else {
            0
        }),
        forall|k: int|
            0 <= k < icons(remain, pos).len() ==> pos <= (#[trigger] icons(remain, pos)[k]).1 && icons(
                remain,
                pos,
            )[k].1 + icon_size(icons(remain, pos)[k].0) <= MAX_OJAMA_DISP_X,
    decreases remain,
{
    match largest_icon(remain) {
        Some(t) => {
            if pos + icon_size(t) <= MAX_OJAMA_DISP_X {
                let s = icons(remain, pos);
                let rest = icons(remain - icon_blocks(t), pos + icon_size(t));
                law_icons_fit(remain - icon_blocks(t), pos + icon_size(t));
                assert(s.drop_first() =~= rest);
                assert forall|k: int| 0 <= k < s.len() implies pos <= (#[trigger] s[k]).1 && s[k].1
                    + icon_size(s[k].0) <= MAX_OJAMA_DISP_X by {
                    if k > 0 {
                        assert(s[k] == rest[k - 1]);
                    }
                }
            }
        },
        None => {},
    }
}

impl Field {
    /// One frame of the icon row of pending garbage blocks.  When the row
    /// is to be rebuilt (the counter stands at `OJAMA_COUNT`) the new icons
    /// are returned; the counter then runs down to -1.
    pub fn ojama_display_step(&mut self) -> (r: Option<Vec<(OjamaType, i32)>>)
        requires
            old(self).ojama_count == OJAMA_COUNT ==> i32::MIN <= old(self).kari_ojama
                + old(self).kakutei_ojama <= i32::MAX,
        ensures
            old(self).ojama_count == OJAMA_COUNT ==> (r matches Some(v) && v@.len() == icons(
                old(self).kari_ojama + old(self).kakutei_ojama,
                0,
            ).len() && forall|k: int|
                0 <= k < v@.len() ==> (#[trigger] v@[k]).0 == icons(
                    old(self).kari_ojama + old(self).kakutei_ojama,
                    0,
                )[k].0 && v@[k].1 == icons(old(self).kari_ojama + old(self).kakutei_ojama, 0)[k].1),
            old(self).ojama_count != OJAMA_COUNT ==> r is None,
            *final(self) == (Field {
                ojama_count: if old(self).ojama_count >= 0 {
                    (old(self).ojama_count - 1) as i32
                } else {
                    old(self).ojama_count
                },
                ..*old(self)
            }),
    {
        let mut r = None;
        if self.ojama_count == OJAMA_COUNT {
            r = Some(ojama_icons(self.kari_ojama + self.kakutei_ojama));
        }
        if self.ojama_count >= 0 {
            self.ojama_count = self.ojama_count - 1;
        }
        r
    }

    /// Takes in one garbage message.  Messages of this field's own player
    /// are ignored; a message with a frame confirms what was announced
    /// together with its own count, one without announces its count.
    pub fn receive_ojama(&mut self, player_id: i32, ojm: &Ojama)
        requires
            ojm.player_id != player_id ==> (if ojm.frame != 0 {
                i32::MIN <= old(self).kakutei_ojama + ojm.num + old(self).kari_ojama <= i32::MAX
                    && i32::MIN <= ojm.num + old(self).kari_ojama <= i32::MAX
            } else {
                i32::MIN <= old(self).kari_ojama + ojm.num <= i32::MAX
            }),
        ensures
            ojm.player_id == player_id ==> *final(self) == *old(self),
            ojm.player_id != player_id ==> *final(self) == (Field {
                kakutei_ojama: if ojm.frame != 0 {
                    (old(self).kakutei_ojama + ojm.num + old(self).kari_ojama) as i32
                } else {
                    old(self).kakutei_ojama
                },
                kari_ojama: if ojm.frame != 0 {
                    0
                } else {
                    (old(self).kari_ojama + ojm.num) as i32
                },
                ojama_count: if ojm.num != 0 {
                    OJAMA_COUNT
                } else {
                    old(self).ojama_count
                },
                ..*old(self)
            }),
            ojm.player_id != player_id ==> final(self).kakutei_ojama + final(self).kari_ojama
                == old(self).kakutei_ojama + old(self).kari_ojama + ojm.num,
    {
        if player_id == ojm.player_id {
            return ;
        }
        if ojm.frame != 0 {
            self.kakutei_ojama = self.kakutei_ojama + (ojm.num + self.kari_ojama);
            self.kari_ojama = 0;
        } else {
            self.kari_ojama = self.kari_ojama + ojm.num;
        }
        if ojm.num != 0 {
            self.ojama_count = OJAMA_COUNT;
        }
    }

    /// Garbage blocks this field's score has earned and not yet sent: one
    /// per `SCORE_PER_OJAMA` points.  The points are marked as sent.
    pub fn send_ojama(&mut self) -> (num: i32)
        requires
            0 <= old(self).ojama_sent_score <= old(self).score,
        ensures
            num == (old(self).score - old(self).ojama_sent_score) / SCORE_PER_OJAMA as int,
            *final(self) == (Field {
                ojama_sent_score: (old(self).ojama_sent_score + SCORE_PER_OJAMA * num) as i32,
                ..*old(self)
            }),
            0 <= final(self).score - final(self).ojama_sent_score < SCORE_PER_OJAMA,
            final(self).ojama_sent_score >= old(self).ojama_sent_score,
    {
        let num = (self.score - self.ojama_sent_score) / SCORE_PER_OJAMA;
        self.ojama_sent_score = self.ojama_sent_score + SCORE_PER_OJAMA * num;
        num
    }
}


/// Number of the columns 1..`n` of `c` that hold `v`.
pub open spec fn count_at(c: Seq<i32>, v: int, n: int) -> int
    decreases n,
{
    if n <= 1 {
        0
    } else {
        count_at(c, v, n - 1) + (if c[n - 1] == v {
            1int
        } else {
            0int
        })
    }
}

/// Sum of the columns 1..`n` of `c`.
pub open spec fn sum_cols(c: Seq<i32>, n: int) -> int
    decreases n,
{
    if n <= 1 {
        0
    } else {
        sum_cols(c, n - 1) + c[n - 1]
    }
}

/// `c` shares `k` confirmed garbage blocks out among the six columns: five
/// each for thirty or more, otherwise the same number each and one more in
/// as many columns as are left over.
pub open spec fn spread_ok(k: int, c: Seq<i32>) -> bool {
    &&& c.len() == 8
    &&& c[0] == 0
    &&& c[7] == 0
    &&& if k >= 30 {
        forall|i: int| 1 <= i <= 6 ==> #[trigger] c[i] == 5
    } else {
        &&& forall|i: int| 1 <= i <= 6 ==> #[trigger] c[i] == k / 6 || c[i] == k / 6 + 1
        &&& sum_cols(c, 7) == k
    }
}

proof fn lemma_count_update(c: Seq<i32>, i: int, v: int, w: i32, n: int)
    requires
        1 <= i < c.len(),
        0 <= n <= c.len(),
        c[i] == v,
        w != v,
    ensures
        count_at(c.update(i, w), v, n) == count_at(c, v, n) - (if 1 <= i < n {
            1int
        } else {
            0int
        }),
        sum_cols(c.update(i, w), n) == sum_cols(c, n) + (if 1 <= i < n {
            w - v
        } else {
            0int
        }),
    decreases n,
{
    if n > 1 {
        lemma_count_update(c, i, v, w, n - 1);
    }
}

proof fn lemma_count_bound(c: Seq<i32>, v: int, n: int)
    requires
        1 <= n <= c.len(),
        forall|i: int| 1 <= i < n ==> #[trigger] c[i] == v || c[i] == v + 1,
    ensures
        sum_cols(c, n) == v * (n - 1) + (n - 1 - count_at(c, v, n)),
        0 <= count_at(c, v, n) <= n - 1,
    decreases n,
{
    if n > 1 {
        lemma_count_bound(c, v, n - 1);
        assert(v * (n - 1) == v * (n - 2) + v) by (nonlinear_arith);
    }
}

/// The column among 1..6 that is the `n`-th (counting from 0) of those
/// holding `v`.
pub open spec fn nth_holding(c: Seq<i32>, v: int, n: int) -> int {
    choose|i: int| 1 <= i <= 6 && c[i] == v && count_at(c, v, i) == n
}

proof fn lemma_count_at_mono(c: Seq<i32>, v: int, a: int, b: int)
    requires
        1 <= a <= b,
    ensures
        count_at(c, v, a) <= count_at(c, v, b),
    decreases b - a,
{
    if a < b {
        lemma_count_at_mono(c, v, a, b - 1);
    }
}

/// The `n`-th column holding `v` exists while `n` is below their number,
/// holds `v`, and has `n` such columns before it.
proof fn lemma_nth_holding(c: Seq<i32>, v: int, n: int)
    requires
        c.len() == 8,
        0 <= n < count_at(c, v, 7),
    ensures
        1 <= nth_holding(c, v, n) <= 6,
        c[nth_holding(c, v, n)] == v,
        count_at(c, v, nth_holding(c, v, n)) == n,
{
    lemma_nth_exists(c, v, n, 7);
}

proof fn lemma_nth_exists(c: Seq<i32>, v: int, n: int, m: int)
    requires
        1 <= m <= 7,
        0 <= n < count_at(c, v, m),
    ensures
        exists|i: int| 1 <= i < m && c[i] == v && count_at(c, v, i) == n,
    decreases m,
{
    if m > 1 {
        if n < count_at(c, v, m - 1) {
            lemma_nth_exists(c, v, n, m - 1);
        } else {
            assert(1 <= m - 1 < m && c[m - 1] == v && count_at(c, v, m - 1) == n);
        }
    }
}

/// A column holding `v` with `n` such columns before it is the `n`-th.
proof fn lemma_nth_unique(c: Seq<i32>, v: int, i: int, n: int)
    requires
        1 <= i <= 6,
        c[i] == v,
        count_at(c, v, i) == n,
    ensures
        nth_holding(c, v, n) == i,
{
    let j = nth_holding(c, v, n);
    assert(1 <= j <= 6 && c[j] == v && count_at(c, v, j) == n);
    if j < i {
        lemma_count_at_mono(c, v, j + 1, i);
    } else if i < j {
        lemma_count_at_mono(c, v, i + 1, j);
    }
}

/// Gives one more block to the column chosen by the random number `r`
/// among the columns that hold `dan`: the (`r` mod their number)-th one.
pub fn give_extra(c: &mut Vec<i32>, dan: i32, r: u32)
    requires
        old(c)@.len() == 8,
        0 <= dan <= 4,
        count_at(old(c)@, dan as int, 7) >= 1,
    ensures
        final(c)@ == old(c)@.update(
            nth_holding(old(c)@, dan as int, r as int % count_at(old(c)@, dan as int, 7)),
            (dan + 1) as i32,
        ),
        1 <= nth_holding(old(c)@, dan as int, r as int % count_at(old(c)@, dan as int, 7)) <= 6,
        old(c)@[nth_holding(old(c)@, dan as int, r as int % count_at(old(c)@, dan as int, 7))]
            == dan,
{
    let ghost c0 = c@;
    let mut avail: u32 = 0;
    let mut i: usize = 1;
    while i < 7
        invariant
            1 <= i <= 7,
            c@ == c0,
            c@.len() == 8,
            avail == count_at(c0, dan as int, i as int),
            avail < i,
        decreases 7 - i,
    {
        if c[i] == dan {
            avail = avail + 1;
        }
        i = i + 1;
    }
    let pick = r % avail;
    let mut seen: u32 = 0;
    let mut i: usize = 1;
    while i < 7
        invariant
            1 <= i <= 7,
            c@ == c0,
            c@.len() == 8,
            seen == count_at(c0, dan as int, i as int),
            seen <= pick,
            c0 == old(c)@,
            pick < avail,
            pick == r % avail,
            avail == count_at(c0, dan as int, 7),
            0 <= dan <= 4,
        decreases 7 - i,
    {
        if c[i] == dan {
            if seen == pick {
                c.set(i, dan + 1);
                proof {
                    lemma_nth_unique(c0, dan as int, i as int, pick as int);
                    lemma_nth_holding(c0, dan as int, pick as int);
                }
                return ;
            }
            seen = seen + 1;
        }
        i = i + 1;
    }
    proof {
        assert(false);
    }
}

/// Shares `k` confirmed garbage blocks out among the six columns, choosing
/// the columns that get one more with the system's generator.
pub fn spread_ojama(k: i32) -> (c: Vec<i32>)
    requires
        k >= 0,
    ensures
        spread_ok(k as int, c@),
{
    let mut c: Vec<i32> = vec![0i32; 8];
    if k >= 30 {
        let mut i: usize = 1;
        while i < 7
            invariant
                1 <= i <= 7,
                c@.len() == 8,
                c@[0] == 0 && c@[7] == 0,
                forall|a: int| 1 <= a < i ==> #[trigger] c@[a] == 5,
            decreases 7 - i,
        {
            c.set(i, 5);
            i = i + 1;
        }
    } else {
        let dan = k / 6;
        let mut i: usize = 1;
        while i < 7
            invariant
                1 <= i <= 7,
                0 <= dan <= 4,
                c@.len() == 8,
                c@[0] == 0 && c@[7] == 0,
                forall|a: int| 1 <= a < i ==> #[trigger] c@[a] == dan,
            decreases 7 - i,
        {
            c.set(i, dan);
            i = i + 1;
        }
        proof {
            lemma_count_bound(c@, dan as int, 7);
            assert(count_at(c@, dan as int, 7) == 6) by {
                reveal_with_fuel(count_at, 8);
            }
        }
        let mut rem = k - dan * 6;
        while rem > 0
            invariant
                0 <= dan <= 4,
                0 <= rem <= 5,
                k < 30,
                dan == k / 6,
                c@.len() == 8,
                c@[0] == 0 && c@[7] == 0,
                forall|a: int| 1 <= a <= 6 ==> #[trigger] c@[a] == dan || c@[a] == dan + 1,
                sum_cols(c@, 7) + rem == k,
                count_at(c@, dan as int, 7) >= rem,
            decreases rem,
        {
            let ghost before = c@;
            let r = random_u32();
            give_extra(&mut c, dan, r);
            proof {
                let i = nth_holding(before, dan as int, r as int % count_at(before, dan as int, 7));
                lemma_count_update(before, i, dan as int, (dan + 1) as i32, 7);
            }
            rem = rem - 1;
        }
    }
    c
}

} // verus!
