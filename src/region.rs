use crate::morton::{encode, interleave, CELLS_PER_AXIS, KEY_BITS};
use vstd::arithmetic::div_mod::{lemma_div_by_multiple, lemma_div_is_ordered};
use vstd::arithmetic::power2::{
    lemma2_to64, lemma2_to64_rest, lemma_pow2_pos, lemma_pow2_strictly_increases, lemma_pow2_unfold,
    pow2,
};
use vstd::prelude::*;

verus! {

/// Fractional bits of a coordinate: the raw value `v` stands for `v / 2^FRACTION_BITS`.
pub const FRACTION_BITS: i32 = 24;

/// The smallest level whose bound is representable: a bound of one raw unit.
pub const MIN_LEVEL: i32 = -24;

/// The largest level whose bound is representable: a bound of `2^62` raw units.
pub const MAX_LEVEL: i32 = 38;

/// A point in space, each coordinate in fixed point with `FRACTION_BITS`
/// fractional bits.
#[derive(Clone, Copy, Debug, PartialEq, Eq, Structural)]
pub struct Point {
    pub x: i64,
    pub y: i64,
    pub z: i64,
}

impl Point {
    /// The coordinate on `axis` (0 for x, 1 for y, 2 for z).
    pub open spec fn coord(self, axis: int) -> int {
        if axis == 0 {
            self.x as int
        } else if axis == 1 {
            self.y as int
        } else {
            self.z as int
        }
    }
}

/// A level whose bound `2^level` is representable in raw units.
pub open spec fn valid_level(level: int) -> bool {
    MIN_LEVEL <= level <= MAX_LEVEL
}

/// The half extent `2^level` of a region, in raw units.
pub open spec fn bound_of(level: int) -> int {
    pow2((level + FRACTION_BITS) as nat) as int
}

/// A coordinate is accepted when its absolute value is at most the bound.
pub open spec fn within(level: int, c: int) -> bool {
    -bound_of(level) <= c <= bound_of(level)
}

/// The cell along one axis of an accepted coordinate: the coordinate
/// normalised into `[0, 1]` by `(c + bound) / (2 * bound)`, scaled to the key
/// depth and rounded down. The normalised value 1, reached only at exactly
/// `+bound`, falls into the last cell.
pub open spec fn cell_of(level: int, c: int) -> nat {
    let b = bound_of(level);
    let q = ((c + b) * CELLS_PER_AXIS) / (2 * b);
    if q >= CELLS_PER_AXIS {
        (CELLS_PER_AXIS - 1) as nat
    } else {
        q as nat
    }
}

/// The key of the point `(x, y, z)` in the region of level `level` centred at
/// the origin, or `None` when some coordinate lies outside the bound.
pub open spec fn region_key(level: int, x: int, y: int, z: int) -> Option<u64> {
    if within(level, x) && within(level, y) && within(level, z) {
        Some(interleave(cell_of(level, x), cell_of(level, y), cell_of(level, z), KEY_BITS as nat) as u64)
    } else {
        None
    }
}

proof fn lemma_bound_range(level: int)
    requires
        valid_level(level),
    ensures
        1 <= bound_of(level) <= 0x4000_0000_0000_0000,
{
    lemma_pow2_pos((level + FRACTION_BITS) as nat);
    lemma2_to64_rest();
    if level < MAX_LEVEL {
        lemma_pow2_strictly_increases((level + FRACTION_BITS) as nat, 62);
    }
}

/// The bound `2^level` in raw units.
fn bound(level: i32) -> (b: i64)
    requires
        valid_level(level as int),
    ensures
        b == bound_of(level as int),
{
    let e: u32 = (level + FRACTION_BITS) as u32;
    let mut b: i64 = 1;
    let mut i: u32 = 0;
    proof {
        lemma2_to64();
    }
    while i < e
        invariant
            i <= e,
            e <= 62,
            b == pow2(i as nat),
        decreases e - i,
    {
        proof {
            lemma_pow2_unfold((i + 1) as nat);
            lemma2_to64_rest();
            if i + 1 < 62 {
                lemma_pow2_strictly_increases((i + 1) as nat, 62);
            }
        }
        b = b * 2;
        i = i + 1;
    }
    b
}

/// The cell of an accepted coordinate `c` for the bound `b`.
fn cell(level: Ghost<int>, b: i64, c: i64) -> (r: u32)
    requires
        valid_level(level@),
        b == bound_of(level@),
        within(level@, c as int),
    ensures
        r == cell_of(level@, c as int),
        r < CELLS_PER_AXIS,
{
    proof {
        lemma_bound_range(level@);
    }
    let t: u128 = (c as i128 + b as i128) as u128;
    let d: u128 = 2 * (b as u128);
    assert(t * (CELLS_PER_AXIS as u128) <= 0x8000_0000_0000_0000 * 2097152) by (nonlinear_arith)
        requires
            t <= 0x8000_0000_0000_0000,
            CELLS_PER_AXIS == 2097152,
    ;
    let q: u128 = t * (CELLS_PER_AXIS as u128) / d;
    proof {
        let n = CELLS_PER_AXIS as int;
        assert(t * n <= d * n) by (nonlinear_arith)
            requires
                t <= d,
                n >= 0,
        ;
        lemma_div_is_ordered((t * n) as int, (d * n) as int, d as int);
        lemma_div_by_multiple(n, d as int);
        assert((d * n) / (d as int) == n) by (nonlinear_arith)
            requires
                (n * d) / (d as int) == n,
        ;
    }
    if q >= CELLS_PER_AXIS as u128 {
        CELLS_PER_AXIS - 1
    } else {
        q as u32
    }
}

/// A cubic region spanning `[-2^level, 2^level)` on each axis, centred at the origin.
#[derive(Clone, Copy, Debug, PartialEq, Eq, Structural)]
pub struct LeveledRegion(pub i32);

impl LeveledRegion {
    /// The key of `point` in this region, or `None` when some coordinate's
    /// absolute value exceeds `2^level`. A coordinate equal to the bound is
    /// accepted, on the upper side too.
    pub fn discretize(self, point: Point) -> (r: Option<u64>)
        requires
            valid_level(self.0 as int),
        ensures
            r == region_key(self.0 as int, point.x as int, point.y as int, point.z as int),
    {
        let b = bound(self.0);
        if point.x > b || point.x < -b || point.y > b || point.y < -b || point.z > b || point.z < -b {
            None
        } else {
            let ghost level = self.0 as int;
            let cx = cell(Ghost(level), b, point.x);
            let cy = cell(Ghost(level), b, point.y);
            let cz = cell(Ghost(level), b, point.z);
            Some(encode(cx, cy, cz))
        }
    }
}

/// The mathematical model of a centred region: its level and its centre.
pub struct Cube {
    pub level: int,
    pub x: int,
    pub y: int,
    pub z: int,
}

/// Whether `p` lies in `[c - r, c + r)`.
pub open spec fn inside(c: int, r: int, p: int) -> bool {
    c - r <= p < c + r
}

/// The bit for one axis of the octant that the existing region moves into:
/// 1 when the point lies below the region, 0 when at or above its upper end,
/// and otherwise 1 exactly when the point lies below the centre.
pub open spec fn axis_bit(c: int, r: int, p: int) -> u8 {
    if p < c - r {
        1
    } else if p >= c + r {
        0
    } else if p < c {
        1
    } else {
        0
    }
}

/// Whether bit `axis` (0 for x, 1 for y, 2 for z) of `octant` is set.
pub open spec fn octant_bit(octant: u8, axis: int) -> bool {
    if axis == 0 {
        octant & 1 != 0
    } else if axis == 1 {
        octant & 2 != 0
    } else {
        octant & 4 != 0
    }
}

/// The shift of the centre along `axis` when expanding into `octant`.
pub open spec fn shift_for(octant: u8, axis: int, r: int) -> int {
    if octant_bit(octant, axis) {
        -r
    } else {
        r
    }
}

impl Cube {
    /// The centre's coordinate on `axis`.
    pub open spec fn coord(self, axis: int) -> int {
        if axis == 0 {
            self.x
        } else if axis == 1 {
            self.y
        } else {
            self.z
        }
    }

    /// The half extent `2^level`, in raw units.
    pub open spec fn radius(self) -> int {
        bound_of(self.level)
    }

    /// The key of `p` measured from the centre.
    pub open spec fn key_of(self, p: Point) -> Option<u64> {
        region_key(self.level, p.x - self.x, p.y - self.y, p.z - self.z)
    }

    /// Whether `p` lies in `[centre - radius, centre + radius)` on every axis.
    pub open spec fn holds(self, p: Point) -> bool {
        inside(self.x, self.radius(), p.x as int) && inside(self.y, self.radius(), p.y as int)
            && inside(self.z, self.radius(), p.z as int)
    }

    /// The octant that the existing region moves into so that one doubling
    /// grows towards `p`, or `None` when `p` already lies in the region.
    /// Bit 0 is x, bit 1 is y, bit 2 is z.
    pub open spec fn expansion_octant(self, p: Point) -> Option<u8> {
        if self.holds(p) {
            None
        } else {
            let r = self.radius();
            Some(
                (axis_bit(self.x, r, p.x as int) + 2 * axis_bit(self.y, r, p.y as int) + 4 * axis_bit(
                    self.z,
                    r,
                    p.z as int,
                )) as u8,
            )
        }
    }

    /// The region one level up, with the existing region in `octant`: the
    /// centre moves by minus the old radius along each axis whose bit is set,
    /// and by plus the old radius along each other axis.
    pub open spec fn expanded(self, octant: u8) -> Cube {
        let r = self.radius();
        Cube {
            level: self.level + 1,
            x: self.x + shift_for(octant, 0, r),
            y: self.y + shift_for(octant, 1, r),
            z: self.z + shift_for(octant, 2, r),
        }
    }

    /// Whether the centre fits in the raw coordinate type.
    pub open spec fn representable(self) -> bool {
        i64::MIN <= self.x <= i64::MAX && i64::MIN <= self.y <= i64::MAX && i64::MIN <= self.z
            <= i64::MAX
    }

    /// The region after up to `k` rounds of asking for the expansion octant
    /// of `p` and expanding into it; rounds stop once `p` lies in the region.
    pub open spec fn grow(self, p: Point, k: nat) -> Cube
        decreases k,
    {
        if k == 0 {
            self
        } else {
            match self.expansion_octant(p) {
                None => self,
                Some(o) => self.expanded(o).grow(p, (k - 1) as nat),
            }
        }
    }
}

/// A `LeveledRegion` shifted so that it is centred at `center`: it spans
/// `[center - 2^level, center + 2^level)` on each axis.
#[derive(Clone, Copy, Debug, PartialEq, Eq, Structural)]
pub struct CenteredLeveledRegion {
    pub leveled_region: LeveledRegion,
    pub center: Point,
}

impl View for CenteredLeveledRegion {
    type V = Cube;

    open spec fn view(&self) -> Cube {
        Cube {
            level: self.leveled_region.0 as int,
            x: self.center.x as int,
            y: self.center.y as int,
            z: self.center.z as int,
        }
    }
}

/// The bit of one axis, and whether the point lies inside the region on it.
fn classify(c: i64, r: i64, p: i64) -> (res: (u8, bool))
    requires
        1 <= r <= 0x4000_0000_0000_0000,
    ensures
        res.0 == axis_bit(c as int, r as int, p as int),
        res.1 == inside(c as int, r as int, p as int),
{
    let lower: i128 = c as i128 - r as i128;
    let upper: i128 = c as i128 + r as i128;
    let q: i128 = p as i128;
    if q < lower {
        (1, false)
    } else if q >= upper {
        (0, false)
    } else if p < c {
        (1, true)
    } else {
        (0, true)
    }
}

impl CenteredLeveledRegion {
    /// The octant where the existing contents go when the region doubles
    /// towards `point`, or `None` when `point` already lies in the region.
    pub fn expand_loc(&self, point: Point) -> (r: Option<u8>)
        requires
            valid_level(self.leveled_region.0 as int),
        ensures
            r == self@.expansion_octant(point),
    {
        let radius = bound(self.leveled_region.0);
        proof {
            lemma_bound_range(self.leveled_region.0 as int);
        }
        let (bx, inx) = classify(self.center.x, radius, point.x);
        let (by, iny) = classify(self.center.y, radius, point.y);
        let (bz, inz) = classify(self.center.z, radius, point.z);
        if inx && iny && inz {
            None
        } else {
            Some(bx + 2 * by + 4 * bz)
        }
    }

    /// The key of `point` measured from the centre, or `None` when it lies
    /// farther than `2^level` from the centre on some axis.
    pub fn discretize(self, point: Point) -> (r: Option<u64>)
        requires
            valid_level(self.leveled_region.0 as int),
        ensures
            r == self@.key_of(point),
    {
        let b = bound(self.leveled_region.0);
        proof {
            lemma_bound_range(self.leveled_region.0 as int);
        }
        let dx: i128 = point.x as i128 - self.center.x as i128;
        let dy: i128 = point.y as i128 - self.center.y as i128;
        let dz: i128 = point.z as i128 - self.center.z as i128;
        let bb: i128 = b as i128;
        if dx > bb || dx < -bb || dy > bb || dy < -bb || dz > bb || dz < -bb {
            None
        } else {
            let shifted = Point { x: dx as i64, y: dy as i64, z: dz as i64 };
            self.leveled_region.discretize(shifted)
        }
    }

    /// Doubles the region: the level goes up by one and the centre moves by
    /// the old radius along each axis, negatively where `octant` has the
    /// axis's bit set and positively elsewhere.
    pub fn expand(&mut self, octant: u8)
        requires
            valid_level(old(self).leveled_region.0 as int),
            old(self).leveled_region.0 < MAX_LEVEL,
            old(self)@.expanded(octant).representable(),
        ensures
            final(self)@ == old(self)@.expanded(octant),
    {
        let r = bound(self.leveled_region.0);
        let x = if octant & 1 != 0 { self.center.x - r } else { self.center.x + r };
        let y = if octant & 2 != 0 { self.center.y - r } else { self.center.y + r };
        let z = if octant & 4 != 0 { self.center.z - r } else { self.center.z + r };
        self.center = Point { x, y, z };
        self.leveled_region = LeveledRegion(self.leveled_region.0 + 1);
    }
}

/// The bits of an octant built from three axis bits are those axis bits.
proof fn lemma_octant_of_bits(bx: u8, by: u8, bz: u8, o: u8) by (bit_vector)
    requires
        bx <= 1,
        by <= 1,
        bz <= 1,
        o == bx + 2 * by + 4 * bz,
    ensures
        (o & 1 != 0) == (bx == 1),
        (o & 2 != 0) == (by == 1),
        (o & 4 != 0) == (bz == 1),
{
}

/// Which octant `expand_loc` names: none exactly when the point lies in
/// `[center - radius, center + radius)` on every axis; otherwise, on each
/// axis, the bit is set when the point lies below the region, clear when it
/// lies at or above the region's upper end, and, where the point lies inside
/// on that axis, set exactly when the point lies below the centre.
pub proof fn lemma_expansion_octant_bits(cube: Cube, p: Point)
    requires
        cube.level >= MIN_LEVEL,
    ensures
        cube.expansion_octant(p) is None <==> cube.holds(p),
        cube.expansion_octant(p) matches Some(o) ==> forall|a: int|
            #![trigger octant_bit(o, a)]
            0 <= a < 3 ==> {
                &&& p.coord(a) < cube.coord(a) - cube.radius() ==> octant_bit(o, a)
                &&& p.coord(a) >= cube.coord(a) + cube.radius() ==> !octant_bit(o, a)
                &&& inside(cube.coord(a), cube.radius(), p.coord(a)) ==> (octant_bit(o, a) <==> p.coord(
                    a,
                ) < cube.coord(a))
            },
{
    lemma_pow2_pos((cube.level + FRACTION_BITS) as nat);
    if !cube.holds(p) {
        let r = cube.radius();
        let bx = axis_bit(cube.x, r, p.x as int);
        let by = axis_bit(cube.y, r, p.y as int);
        let bz = axis_bit(cube.z, r, p.z as int);
        let o = (bx + 2 * by + 4 * bz) as u8;
        lemma_octant_of_bits(bx, by, bz, o);
    }
}

/// One round moves the centre by the old radius towards `p` on each axis.
proof fn lemma_expansion_moves_towards(cube: Cube, p: Point)
    requires
        cube.level >= MIN_LEVEL,
        !cube.holds(p),
    ensures
        cube.expansion_octant(p) matches Some(o) ==> {
            let next = cube.expanded(o);
            &&& next.level == cube.level + 1
            &&& next.radius() == 2 * cube.radius()
            &&& next.x == if p.x < cube.x { cube.x - cube.radius() } else { cube.x + cube.radius() }
            &&& next.y == if p.y < cube.y { cube.y - cube.radius() } else { cube.y + cube.radius() }
            &&& next.z == if p.z < cube.z { cube.z - cube.radius() } else { cube.z + cube.radius() }
        },
{
    lemma_pow2_pos((cube.level + FRACTION_BITS) as nat);
    lemma_pow2_unfold((cube.level + 1 + FRACTION_BITS) as nat);
    let r = cube.radius();
    let bx = axis_bit(cube.x, r, p.x as int);
    let by = axis_bit(cube.y, r, p.y as int);
    let bz = axis_bit(cube.z, r, p.z as int);
    let o = (bx + 2 * by + 4 * bz) as u8;
    lemma_octant_of_bits(bx, by, bz, o);
}

/// Along one axis, a round keeps the distance to `p` within `d` or within
/// the new radius, if it was within `d` or within the old radius.
proof fn lemma_axis_step(c: int, r: int, q: int, d: int)
    requires
        r >= 1,
        abs_diff(q, c) <= d || abs_diff(q, c) <= r,
    ensures
        ({
            let next = if q < c { c - r } else { c + r };
            abs_diff(q, next) <= d || abs_diff(q, next) <= 2 * r
        }),
{
}

/// The distance between two coordinates.
pub open spec fn abs_diff(a: int, b: int) -> int {
    if a >= b { a - b } else { b - a }
}

/// Repeated rounds of `expand_loc` and `expand` reach a region in which
/// `discretize` accepts `p`: once the radius `2^(level + k)` is at least
/// the largest distance `d` from the initial centre to `p` along an axis,
/// `k` rounds suffice, so about `log2(d / radius)` rounds.
pub proof fn lemma_expansion_converges(cube: Cube, p: Point, k: nat, d: int)
    requires
        cube.level >= MIN_LEVEL,
        abs_diff(p.x as int, cube.x) <= d,
        abs_diff(p.y as int, cube.y) <= d,
        abs_diff(p.z as int, cube.z) <= d,
        bound_of(cube.level + k) >= d,
    ensures
        cube.grow(p, k).key_of(p) is Some,
        cube.grow(p, k).level <= cube.level + k,
{
    lemma_grow_reaches(cube, p, k, d);
}

proof fn lemma_grow_reaches(cube: Cube, p: Point, k: nat, d: int)
    requires
        cube.level >= MIN_LEVEL,
        abs_diff(p.x as int, cube.x) <= d || abs_diff(p.x as int, cube.x) <= cube.radius(),
        abs_diff(p.y as int, cube.y) <= d || abs_diff(p.y as int, cube.y) <= cube.radius(),
        abs_diff(p.z as int, cube.z) <= d || abs_diff(p.z as int, cube.z) <= cube.radius(),
        bound_of(cube.level + k) >= d,
    ensures
        cube.grow(p, k).key_of(p) is Some,
        cube.grow(p, k).level <= cube.level + k,
    decreases k,
{
    lemma_pow2_pos((cube.level + FRACTION_BITS) as nat);
    if k == 0 {
    } else if cube.holds(p) {
    } else {
        let o = cube.expansion_octant(p)->Some_0;
        let next = cube.expanded(o);
        lemma_expansion_moves_towards(cube, p);
        let r = cube.radius();
        lemma_axis_step(cube.x, r, p.x as int, d);
        lemma_axis_step(cube.y, r, p.y as int, d);
        lemma_axis_step(cube.z, r, p.z as int, d);
        assert(next.level + (k - 1) == cube.level + k);
        lemma_grow_reaches(next, p, (k - 1) as nat, d);
    }
}

} // verus!
