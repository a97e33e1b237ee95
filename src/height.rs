//! The height field: a saturating, inverse-distance-weighted density of
//! content pixels around each cell.
use vstd::prelude::*;
use crate::mask::{Mask, in_grid};

verus! {

/// Fixed-point unit of a neighbourhood weight: a neighbour at squared
/// distance `d` weighs `WEIGHT_SCALE / d`.
pub const WEIGHT_SCALE: i128 = 1_000_000;

/// Whether the offset `(dx, dy)` belongs to the disc of radius `r`, centre
/// excluded.
pub open spec fn in_disc(r: int, dx: int, dy: int) -> bool {
    (dx != 0 || dy != 0) && dx * dx + dy * dy <= r * r
}

/// The fixed-point weight `1 / d` of a neighbour at squared distance `d`,
/// truncated: `WEIGHT_SCALE / d` rounded down, so that a neighbour farther
/// than a thousand pixels weighs nothing.
pub open spec fn weight(d: int) -> int {
    WEIGHT_SCALE as int / d
}

/// What the neighbour at offset `(dx, dy)` adds to the score of `(x, y)`:
/// its weight when it is content, minus its weight otherwise (points outside
/// the grid are background), nothing outside the disc.
pub open spec fn term(m: &Mask, x: int, y: int, r: int, dx: int, dy: int) -> int {
    if in_disc(r, dx, dy) {
        if m.content_at(x + dx, y + dy) {
            weight(dx * dx + dy * dy)
        } else {
            -weight(dx * dx + dy * dy)
        }
    } else {
        0
    }
}

/// Sum of the terms of row `dy` for `dx` from `-r` to `-r + n - 1`.
pub open spec fn row_score(m: &Mask, x: int, y: int, r: int, dy: int, n: nat) -> int
    decreases n,
{
    if n == 0 {
        0
    } else {
        row_score(m, x, y, r, dy, (n - 1) as nat) + term(m, x, y, r, -r + n - 1, dy)
    }
}

/// Sum of the rows `dy` from `-r` to `-r + n - 1`.
pub open spec fn rows_score(m: &Mask, x: int, y: int, r: int, n: nat) -> int
    decreases n,
{
    if n == 0 {
        0
    } else {
        rows_score(m, x, y, r, (n - 1) as nat) + row_score(m, x, y, r, -r + n - 1, (2 * r + 1) as nat)
    }
}

/// The signed, weighted score of `(x, y)` over the whole disc of radius `r`.
pub open spec fn score(m: &Mask, x: int, y: int, r: int) -> int {
    rows_score(m, x, y, r, (2 * r + 1) as nat)
}

/// Maps a score to a height in thousandths of a unit. With the normalising
/// area `2 * pi * (r - 1)`, pi taken as `355 / 113`, that is
/// `710 * (r - 1) / 113`, the height is `8000` times: `0` for a score that is
/// not positive, `r` for a score above the area, and `score / area` in
/// between. On that ramp the height is rounded down to a whole thousandth,
/// but never below one thousandth: a positive score always gives a positive
/// height.
pub open spec fn level(score: int, r: int) -> int {
    if score <= 0 {
        0
    } else if 113 * score > 710 * (r - 1) * WEIGHT_SCALE {
        8000 * r
    } else {
        let q = (904000 * score) / (710 * WEIGHT_SCALE * (r - 1));
        if q < 1 {
            1
        } else {
            q
        }
    }
}

/// The height of `(x, y)`, in thousandths, before any plate offset.
pub open spec fn height_spec(m: &Mask, x: int, y: int, r: int) -> int {
    level(score(m, x, y, r), r)
}

proof fn lemma_row_bound(m: &Mask, x: int, y: int, r: int, dy: int, n: nat)
    ensures
        -(n * WEIGHT_SCALE) <= row_score(m, x, y, r, dy, n) <= n * WEIGHT_SCALE,
    decreases n,
{
    if n > 0 {
        lemma_row_bound(m, x, y, r, dy, (n - 1) as nat);
        let dx = -r + n - 1;
        if in_disc(r, dx, dy) {
            let d = dx * dx + dy * dy;
            assert(d >= 1) by (nonlinear_arith)
                requires
                    dx != 0 || dy != 0,
                    d == dx * dx + dy * dy,
            ;
            assert(0 <= WEIGHT_SCALE as int / d <= WEIGHT_SCALE) by (nonlinear_arith)
                requires
                    d >= 1,
            ;
        }
    }
}

/// The height of one cell, in thousandths of a unit, with no plate offset.
/// Every radius is accepted: the score is held in `i128`, which the whole
/// disc of the largest `u32` radius cannot exceed.
pub fn height_at(mask: &Mask, x: u32, y: u32, radius: u32) -> (h: u64)
    requires
        mask.wf(),
        x < mask.width,
        y < mask.height,
    ensures
        h == height_spec(mask, x as int, y as int, radius as int),
{
    let r: i64 = radius as i64;
    let cx: i64 = x as i64;
    let cy: i64 = y as i64;
    proof {
        assert(0 <= r * r <= 0x1_0000_0000 * 0x1_0000_0000) by (nonlinear_arith)
            requires
                0 <= r <= u32::MAX,
        ;
    }
    let rr: i128 = (r as i128) * (r as i128);
    let mut total: i128 = 0;
    let mut dy: i64 = -r;
    while dy <= r
        invariant
            0 <= r <= u32::MAX,
            rr == r * r,
            0 <= cx <= u32::MAX,
            0 <= cy <= u32::MAX,
            mask.wf(),
            -r <= dy <= r + 1,
            total == rows_score(mask, cx as int, cy as int, r as int, (dy + r) as nat),
            -((dy + r) * 0x4_0000_0000 * WEIGHT_SCALE) <= total <= (dy + r) * 0x4_0000_0000
                * WEIGHT_SCALE,
        decreases r + 1 - dy,
    {
        let mut row: i128 = 0;
        let mut dx: i64 = -r;
        while dx <= r
            invariant
                0 <= r <= u32::MAX,
                rr == r * r,
                0 <= cx <= u32::MAX,
                0 <= cy <= u32::MAX,
                mask.wf(),
                -r <= dy <= r,
                -r <= dx <= r + 1,
                row == row_score(mask, cx as int, cy as int, r as int, dy as int, (dx + r) as nat),
                -((dx + r) * WEIGHT_SCALE) <= row <= (dx + r) * WEIGHT_SCALE,
            decreases r + 1 - dx,
        {
            proof {
                lemma_row_bound(mask, cx as int, cy as int, r as int, dy as int, (dx + r + 1) as nat);
                assert(0 <= dx * dx <= 0x1_0000_0000 * 0x1_0000_0000 && 0 <= dy * dy <= 0x1_0000_0000
                    * 0x1_0000_0000) by (nonlinear_arith)
                    requires
                        -0x1_0000_0000 <= dx <= 0x1_0000_0000,
                        -0x1_0000_0000 <= dy <= 0x1_0000_0000,
                ;
            }
            if dx != 0 || dy != 0 {
                let d: i128 = (dx as i128) * (dx as i128) + (dy as i128) * (dy as i128);
                if d <= rr {
                    proof {
                        assert(d >= 1) by (nonlinear_arith)
                            requires
                                dx != 0 || dy != 0,
                                d == dx * dx + dy * dy,
                        ;
                    }
                    let w: i128 = WEIGHT_SCALE / d;
                    if mask.is_content(cx + dx, cy + dy) {
                        row = row + w;
                    } else {
                        row = row - w;
                    }
                }
            }
            dx = dx + 1;
        }
        proof {
            lemma_row_bound(mask, cx as int, cy as int, r as int, dy as int, (2 * r + 1) as nat);
        }
        total = total + row;
        dy = dy + 1;
    }
    let h: i128 = if total <= 0 {
        0
    } else if 113 * total > 710 * (r as i128 - 1) * WEIGHT_SCALE {
        8000 * (r as i128)
    } else {
        proof {
            assert(r >= 2);
            assert(0 <= (904000 * total) / (710 * WEIGHT_SCALE * (r - 1)) <= 8000) by (nonlinear_arith)
                requires
                    r >= 2,
                    total > 0,
                    113 * total <= 710 * (r - 1) * WEIGHT_SCALE,
            ;
        }
        assert(0 < 710 * WEIGHT_SCALE * (r - 1) <= 710 * WEIGHT_SCALE * 0x1_0000_0000) by (nonlinear_arith)
            requires
                2 <= r <= u32::MAX,
        ;
        let area: i128 = 710 * WEIGHT_SCALE * (r as i128 - 1);
        let q: i128 = (904000 * total) / area;
        if q < 1 {
            1
        } else {
            q
        }
    };
    h as u64
}

/// The height of one cell after the plate offset: one thousandth more than
/// the plain height when a base plate is requested.
pub open spec fn cell_height(m: &Mask, x: int, y: int, r: int, plate: bool) -> int {
    height_spec(m, x, y, r) + if plate { 1int } else { 0int }
}

/// A dense, row-major grid of heights in thousandths of a unit.
pub struct HeightField {
    pub width: u32,
    pub height: u32,
    /// Whether a base plate was requested, so that every height carries the
    /// plate offset.
    pub plate: bool,
    pub cells: Vec<u64>,
}

impl HeightField {
    /// The grid holds one height per cell; in plate mode no height is zero.
    pub open spec fn wf(&self) -> bool {
        &&& self.cells@.len() == self.width * self.height
        &&& self.plate ==> forall|i: int| 0 <= i < self.cells@.len() ==> self.cells@[i] >= 1
    }

    /// The height at `(x, y)`.
    pub open spec fn at(&self, x: int, y: int) -> int {
        self.cells@[y * self.width + x] as int
    }

    /// Computes the height of every cell of `mask`; with `plate`, each height
    /// is raised by one thousandth.
    pub fn compute(mask: &Mask, radius: u32, plate: bool) -> (f: HeightField)
        requires
            mask.wf(),
        ensures
            f.wf(),
            f.width == mask.width,
            f.height == mask.height,
            f.plate == plate,
            forall|x: int, y: int|
                in_grid(mask.width as int, mask.height as int, x, y) ==> f.at(x, y) == cell_height(
                    mask,
                    x,
                    y,
                    radius as int,
                    plate,
                ),
    {
        let w: u32 = mask.width;
        let h: u32 = mask.height;
        let offset: u64 = if plate { 1 } else { 0 };
        let mut cells: Vec<u64> = Vec::new();
        let mut y: u32 = 0;
        while y < h
            invariant
                mask.wf(),
                w == mask.width,
                h == mask.height,
                offset == (if plate { 1int } else { 0int }),
                y <= h,
                cells@.len() == y * w,
                forall|i: int| 0 <= i < cells@.len() ==> cells@[i] >= offset,
                forall|a: int, b: int|
                    0 <= a < w && 0 <= b < y ==> cells@[b * w + a] == cell_height(
                        mask,
                        a,
                        b,
                        radius as int,
                        plate,
                    ),
            decreases h - y,
        {
            let mut x: u32 = 0;
            while x < w
                invariant
                    mask.wf(),
                    w == mask.width,
                    h == mask.height,
                    offset == (if plate { 1int } else { 0int }),
                    y < h,
                    x <= w,
                    cells@.len() == y * w + x,
                    forall|i: int| 0 <= i < cells@.len() ==> cells@[i] >= offset,
                    forall|a: int, b: int|
                        0 <= a < w && 0 <= b < y ==> cells@[b * w + a] == cell_height(
                            mask,
                            a,
                            b,
                            radius as int,
                            plate,
                        ),
                    forall|a: int| 0 <= a < x ==> cells@[y * w + a] == cell_height(
                        mask,
                        a,
                        y as int,
                        radius as int,
                        plate,
                    ),
                decreases w - x,
            {
                let v: u64 = height_at(mask, x, y, radius);
                proof {
                    lemma_height_bounded(mask, x as int, y as int, radius as int);
                }
                let old_cells = Ghost(cells@);
                cells.push(v + offset);
                proof {
                    assert forall|a: int, b: int|
                        0 <= a < w && 0 <= b < y implies cells@[b * w + a] == cell_height(
                            mask,
                            a,
                            b,
                            radius as int,
                            plate,
                        ) by {
                        lemma_index_before(w as int, a, b, y as int);
                        assert(cells@[b * w + a] == old_cells@[b * w + a]);
                    }
                }
                x = x + 1;
            }
            proof {
                assert((y + 1) * w == y * w + w) by (nonlinear_arith);
                assert forall|a: int, b: int|
                    0 <= a < w && 0 <= b < y + 1 implies cells@[b * w + a] == cell_height(
                        mask,
                        a,
                        b,
                        radius as int,
                        plate,
                    ) by {
                    if b == y {
                    }
                }
            }
            y = y + 1;
        }
        assert((h as int) * (w as int) == (w as int) * (h as int)) by (nonlinear_arith);
        let f = HeightField { width: w, height: h, plate, cells };
        assert(f.plate ==> forall|i: int| 0 <= i < f.cells@.len() ==> f.cells@[i] >= 1);
        f
    }
}

/// In a row-major grid of width `w`, a cell of an earlier row comes before
/// row `y`.
pub proof fn lemma_index_before(w: int, a: int, b: int, y: int)
    requires
        0 <= a < w,
        0 <= b < y,
    ensures
        0 <= b * w + a < y * w,
{
    assert(0 <= b * w + a < y * w) by (nonlinear_arith)
        requires
            0 <= a < w,
            0 <= b < y,
    ;
}

/// Every height lies between zero and eight times the radius (in
/// thousandths: `8000 * r`).
pub proof fn lemma_height_bounded(m: &Mask, x: int, y: int, r: int)
    requires
        r >= 0,
    ensures
        0 <= height_spec(m, x, y, r) <= 8000 * r,
{
    let s = score(m, x, y, r);
    if s > 0 && !(113 * s > 710 * (r - 1) * WEIGHT_SCALE) {
        assert(0 <= (904000 * s) / (710 * WEIGHT_SCALE * (r - 1)) <= 8000) by (nonlinear_arith)
            requires
                r >= 2,
                s > 0,
                113 * s <= 710 * (r - 1) * WEIGHT_SCALE,
        ;
    }
}

proof fn lemma_weight_nonnegative(dx: int, dy: int)
    requires
        dx != 0 || dy != 0,
    ensures
        weight(dx * dx + dy * dy) >= 0,
{
    let d = dx * dx + dy * dy;
    assert(d >= 1) by (nonlinear_arith)
        requires
            dx != 0 || dy != 0,
            d == dx * dx + dy * dy,
    ;
    assert(WEIGHT_SCALE as int / d >= 0) by (nonlinear_arith)
        requires
            d >= 1,
    ;
}

/// Row sums grow with the terms.
proof fn lemma_row_monotone(m1: &Mask, m2: &Mask, x: int, y: int, r: int, dy: int, n: nat)
    requires
        forall|dx: int| term(m1, x, y, r, dx, dy) <= term(m2, x, y, r, dx, dy),
    ensures
        row_score(m1, x, y, r, dy, n) <= row_score(m2, x, y, r, dy, n),
    decreases n,
{
    if n > 0 {
        lemma_row_monotone(m1, m2, x, y, r, dy, (n - 1) as nat);
    }
}

/// Disc sums grow with the terms.
proof fn lemma_rows_monotone(m1: &Mask, m2: &Mask, x: int, y: int, r: int, n: nat)
    requires
        forall|dx: int, dy: int| term(m1, x, y, r, dx, dy) <= term(m2, x, y, r, dx, dy),
    ensures
        rows_score(m1, x, y, r, n) <= rows_score(m2, x, y, r, n),
    decreases n,
{
    if n > 0 {
        lemma_rows_monotone(m1, m2, x, y, r, (n - 1) as nat);
        lemma_row_monotone(m1, m2, x, y, r, -r + n - 1, (2 * r + 1) as nat);
    }
}

/// The height grows with the score.
proof fn lemma_level_monotone(s1: int, s2: int, r: int)
    requires
        r >= 1,
        s1 <= s2,
    ensures
        level(s1, r) <= level(s2, r),
{
    let a = 710 * WEIGHT_SCALE * (r - 1);
    if s1 > 0 && !(113 * s1 > 710 * (r - 1) * WEIGHT_SCALE) {
        assert((904000 * s1) / a <= 8000) by (nonlinear_arith)
            requires
                r >= 2,
                s1 > 0,
                a == 710 * WEIGHT_SCALE * (r - 1),
                113 * s1 <= 710 * (r - 1) * WEIGHT_SCALE,
        ;
        if !(113 * s2 > 710 * (r - 1) * WEIGHT_SCALE) {
            assert(r >= 2);
            assert(a > 0) by (nonlinear_arith)
                requires
                    r >= 2,
                    a == 710 * WEIGHT_SCALE * (r - 1),
            ;
            assert((904000 * s1) / a <= (904000 * s2) / a) by (nonlinear_arith)
                requires
                    a > 0,
                    s1 <= s2,
            ;
        }
    }
    if s2 > 0 && !(113 * s2 > 710 * (r - 1) * WEIGHT_SCALE) {
        assert(0 <= (904000 * s2) / a) by (nonlinear_arith)
            requires
                r >= 2,
                s2 > 0,
                a == 710 * WEIGHT_SCALE * (r - 1),
        ;
    }
}

/// Adding one content pixel within the radius of `(x, y)` never lowers the
/// height of `(x, y)`.
pub proof fn lemma_height_monotone(m1: &Mask, m2: &Mask, x: int, y: int, r: int, px: int, py: int)
    requires
        r >= 1,
        m1.wf(),
        m2.width == m1.width,
        m2.height == m1.height,
        in_grid(m1.width as int, m1.height as int, px, py),
        in_disc(r, px - x, py - y),
        m2.cells@ == m1.cells@.update(py * m1.width + px, true),
    ensures
        height_spec(m1, x, y, r) <= height_spec(m2, x, y, r),
{
    assert forall|dx: int, dy: int| term(m1, x, y, r, dx, dy) <= term(m2, x, y, r, dx, dy) by {
        if in_disc(r, dx, dy) {
            lemma_weight_nonnegative(dx, dy);
        }
        if m1.content_at(x + dx, y + dy) {
            let i = (y + dy) * m1.width + (x + dx);
            let j = py * m1.width + px;
            assert(0 <= i < m1.width * m1.height) by (nonlinear_arith)
                requires
                    i == (y + dy) * m1.width + (x + dx),
                    0 <= x + dx < m1.width,
                    0 <= y + dy < m1.height,
            ;
            assert(0 <= j < m1.width * m1.height) by (nonlinear_arith)
                requires
                    j == py * m1.width + px,
                    0 <= px < m1.width,
                    0 <= py < m1.height,
            ;
            assert(m2.content_at(x + dx, y + dy));
        }
    }
    lemma_rows_monotone(m1, m2, x, y, r, (2 * r + 1) as nat);
    lemma_level_monotone(score(m1, x, y, r), score(m2, x, y, r), r);
}

proof fn lemma_row_nonpositive(m: &Mask, x: int, y: int, r: int, dy: int, n: nat)
    requires
        forall|dx: int| term(m, x, y, r, dx, dy) <= 0,
    ensures
        row_score(m, x, y, r, dy, n) <= 0,
    decreases n,
{
    if n > 0 {
        lemma_row_nonpositive(m, x, y, r, dy, (n - 1) as nat);
    }
}

proof fn lemma_rows_nonpositive(m: &Mask, x: int, y: int, r: int, n: nat)
    requires
        forall|dx: int, dy: int| term(m, x, y, r, dx, dy) <= 0,
    ensures
        rows_score(m, x, y, r, n) <= 0,
    decreases n,
{
    if n > 0 {
        lemma_rows_nonpositive(m, x, y, r, (n - 1) as nat);
        lemma_row_nonpositive(m, x, y, r, -r + n - 1, (2 * r + 1) as nat);
    }
}

/// A background pixel whose whole disc holds no content pixel (points
/// outside the grid count as background) has height zero.
pub proof fn lemma_background_floor(m: &Mask, x: int, y: int, r: int)
    requires
        !m.content_at(x, y),
        forall|dx: int, dy: int| in_disc(r, dx, dy) ==> !m.content_at(x + dx, y + dy),
    ensures
        height_spec(m, x, y, r) == 0,
{
    assert forall|dx: int, dy: int| term(m, x, y, r, dx, dy) <= 0 by {
        if in_disc(r, dx, dy) {
            lemma_weight_nonnegative(dx, dy);
        }
    }
    lemma_rows_nonpositive(m, x, y, r, (2 * r + 1) as nat);
}

/// Sum of the weights of row `dy` of the disc, for `dx` from `-r` to
/// `-r + n - 1`.
pub open spec fn full_row(r: int, dy: int, n: nat) -> int
    decreases n,
{
    if n == 0 {
        0
    } else {
        full_row(r, dy, (n - 1) as nat) + if in_disc(r, -r + n - 1, dy) {
            weight((-r + n - 1) * (-r + n - 1) + dy * dy)
        } else {
            0
        }
    }
}

/// Sum of the weights of the rows `dy` from `-r` to `-r + n - 1`.
pub open spec fn full_rows(r: int, n: nat) -> int
    decreases n,
{
    if n == 0 {
        0
    } else {
        full_rows(r, (n - 1) as nat) + full_row(r, -r + n - 1, (2 * r + 1) as nat)
    }
}

/// The score of a pixel whose whole disc is content: the sum of all the
/// disc's weights.
pub open spec fn disc_weight(r: int) -> int {
    full_rows(r, (2 * r + 1) as nat)
}

proof fn lemma_row_full(m: &Mask, x: int, y: int, r: int, dy: int, n: nat)
    requires
        forall|dx: int| in_disc(r, dx, dy) ==> m.content_at(x + dx, y + dy),
    ensures
        row_score(m, x, y, r, dy, n) == full_row(r, dy, n),
    decreases n,
{
    if n > 0 {
        lemma_row_full(m, x, y, r, dy, (n - 1) as nat);
    }
}

proof fn lemma_rows_full(m: &Mask, x: int, y: int, r: int, n: nat)
    requires
        forall|dx: int, dy: int| in_disc(r, dx, dy) ==> m.content_at(x + dx, y + dy),
    ensures
        rows_score(m, x, y, r, n) == full_rows(r, n),
    decreases n,
{
    if n > 0 {
        lemma_rows_full(m, x, y, r, (n - 1) as nat);
        lemma_row_full(m, x, y, r, -r + n - 1, (2 * r + 1) as nat);
    }
}

/// A pixel whose whole disc is content reaches the full height `8 * r` (in
/// thousandths: `8000 * r`), for every radius whose disc weight exceeds the
/// normalising area `2 * pi * (r - 1)`. That holds for radius 1 and 2; from
/// radius 3 on, the disc's weight stays under the area and the height stays
/// on the ramp.
pub proof fn lemma_full_saturation(m: &Mask, x: int, y: int, r: int)
    requires
        r >= 1,
        113 * disc_weight(r) > 710 * (r - 1) * WEIGHT_SCALE,
        forall|dx: int, dy: int| in_disc(r, dx, dy) ==> m.content_at(x + dx, y + dy),
    ensures
        height_spec(m, x, y, r) == 8000 * r,
{
    lemma_rows_full(m, x, y, r, (2 * r + 1) as nat);
}

/// For radius 1 and 2 the disc's weight exceeds the normalising area, so a
/// pixel whose whole disc is content reaches the full height `8 * r`.
pub proof fn lemma_full_saturation_small(m: &Mask, x: int, y: int, r: int)
    requires
        1 <= r <= 2,
        forall|dx: int, dy: int| in_disc(r, dx, dy) ==> m.content_at(x + dx, y + dy),
    ensures
        height_spec(m, x, y, r) == 8000 * r,
{
    if r == 1 {
        assert(weight(1) == 1000000 && weight(2) == 500000 && weight(4) == 250000);
        assert(full_rows(r, 0) == 0);
        assert(full_row(1, -1, 0) == 0);
        assert(full_row(1, -1, 1) == 0);
        assert(full_row(1, -1, 2) == 1000000);
        assert(full_row(1, -1, 3) == 1000000);
        assert(full_rows(1, 1) == 1000000);
        assert(full_row(1, 0, 0) == 0);
        assert(full_row(1, 0, 1) == 1000000);
        assert(full_row(1, 0, 2) == 1000000);
        assert(full_row(1, 0, 3) == 2000000);
        assert(full_rows(1, 2) == 3000000);
        assert(full_row(1, 1, 0) == 0);
        assert(full_row(1, 1, 1) == 0);
        assert(full_row(1, 1, 2) == 1000000);
        assert(full_row(1, 1, 3) == 1000000);
        assert(full_rows(1, 3) == 4000000);
    } else {
        assert(weight(1) == 1000000 && weight(2) == 500000 && weight(4) == 250000);
        assert(full_rows(r, 0) == 0);
        assert(full_row(2, -2, 0) == 0);
        assert(full_row(2, -2, 1) == 0);
        assert(full_row(2, -2, 2) == 0);
        assert(full_row(2, -2, 3) == 250000);
        assert(full_row(2, -2, 4) == 250000);
        assert(full_row(2, -2, 5) == 250000);
        assert(full_rows(2, 1) == 250000);
        assert(full_row(2, -1, 0) == 0);
        assert(full_row(2, -1, 1) == 0);
        assert(in_disc(2, -1, -1) && (-1) * (-1) + (-1) * (-1) == 2);
        assert(full_row(2, -1, 2) == 500000);
        assert(full_row(2, -1, 3) == 1500000);
        assert(full_row(2, -1, 4) == 2000000);
        assert(full_row(2, -1, 5) == 2000000);
        assert(full_rows(2, 2) == 2250000);
        assert(full_row(2, 0, 0) == 0);
        assert(full_row(2, 0, 1) == 250000);
        assert(full_row(2, 0, 2) == 1250000);
        assert(full_row(2, 0, 3) == 1250000);
        assert(full_row(2, 0, 4) == 2250000);
        assert(full_row(2, 0, 5) == 2500000);
        assert(full_rows(2, 3) == 4750000);
        assert(full_row(2, 1, 0) == 0);
        assert(full_row(2, 1, 1) == 0);
        assert(full_row(2, 1, 2) == 500000);
        assert(full_row(2, 1, 3) == 1500000);
        assert(full_row(2, 1, 4) == 2000000);
        assert(full_row(2, 1, 5) == 2000000);
        assert(full_rows(2, 4) == 6750000);
        assert(full_row(2, 2, 0) == 0);
        assert(full_row(2, 2, 1) == 0);
        assert(full_row(2, 2, 2) == 0);
        assert(full_row(2, 2, 3) == 250000);
        assert(full_row(2, 2, 4) == 250000);
        assert(full_row(2, 2, 5) == 250000);
        assert(full_rows(2, 5) == 7000000);
    }
    lemma_full_saturation(m, x, y, r);
}

proof fn lemma_row_same(m1: &Mask, x1: int, y1: int, m2: &Mask, x2: int, y2: int, r: int, dy: int, n: nat)
    requires
        forall|dx: int| term(m1, x1, y1, r, dx, dy) == term(m2, x2, y2, r, dx, dy),
    ensures
        row_score(m1, x1, y1, r, dy, n) == row_score(m2, x2, y2, r, dy, n),
    decreases n,
{
    if n > 0 {
        lemma_row_same(m1, x1, y1, m2, x2, y2, r, dy, (n - 1) as nat);
    }
}

proof fn lemma_rows_same(m1: &Mask, x1: int, y1: int, m2: &Mask, x2: int, y2: int, r: int, n: nat)
    requires
        forall|dx: int, dy: int| term(m1, x1, y1, r, dx, dy) == term(m2, x2, y2, r, dx, dy),
    ensures
        rows_score(m1, x1, y1, r, n) == rows_score(m2, x2, y2, r, n),
    decreases n,
{
    if n > 0 {
        lemma_rows_same(m1, x1, y1, m2, x2, y2, r, (n - 1) as nat);
        lemma_row_same(m1, x1, y1, m2, x2, y2, r, -r + n - 1, (2 * r + 1) as nat);
    }
}

/// The height of a pixel depends only on which cells of its disc are
/// content, centre excluded: two pixels, of the same mask or of two masks,
/// whose discs read alike have the same height. So the centre and the cells
/// beyond the radius never matter, and padding an image with background
/// leaves every height unchanged, since points outside the grid read as
/// background.
pub proof fn lemma_height_reads_disc(m1: &Mask, x1: int, y1: int, m2: &Mask, x2: int, y2: int, r: int)
    requires
        forall|dx: int, dy: int|
            in_disc(r, dx, dy) ==> m1.content_at(x1 + dx, y1 + dy) == m2.content_at(x2 + dx, y2 + dy),
    ensures
        height_spec(m1, x1, y1, r) == height_spec(m2, x2, y2, r),
{
    lemma_rows_same(m1, x1, y1, m2, x2, y2, r, (2 * r + 1) as nat);
}

} // verus!
