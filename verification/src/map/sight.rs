//! Line of sight and throwing range.

use vstd::prelude::*;

use super::grid::StaticMap;
use crate::Position;

verus! {

/// How far an item can be thrown along x.
pub const THROW_RANGE_X: i32 = 8;

/// How far an item can be thrown along y.
pub const THROW_RANGE_Y: i32 = 6;

/// The distance of two numbers.
pub open spec fn gap(a: int, b: int) -> int {
    if a <= b {
        b - a
    } else {
        a - b
    }
}

/// `|a - b|`.
pub fn distance(a: u16, b: u16) -> (d: i32)
    ensures
        d == gap(a as int, b as int),
{
    if a <= b {
        b as i32 - a as i32
    } else {
        a as i32 - b as i32
    }
}

/// One, in units of which all heights of lines are made up: each is a multiple of 2 to the power
/// of -40.
pub const ONE: i64 = 0x100_0000_0000;

/// A tenth, as close as 24 significant bits come to it.
pub const TENTH: i64 = 109_951_164_416;

/// The integer nearest to `a / b`, the even one of two.
pub open spec fn nearest(a: int, b: int) -> int {
    let q = a / b;
    let r = a % b;
    if 2 * r < b || (2 * r == b && q % 2 == 0) {
        q
    } else {
        q + 1
    }
}

/// The weight of the last of the 24 significant bits of `n`.
pub open spec fn last_bit(n: nat) -> nat
    decreases n,
{
    if n < 0x100_0000 {
        1
    } else {
        2 * last_bit(n / 2)
    }
}

/// `v` rounded to 24 significant bits, as single precision does.
pub open spec fn single(v: int) -> int {
    if v >= 0 {
        let u = last_bit(v as nat) as int;
        nearest(v, u) * u
    } else {
        let u = last_bit((-v) as nat) as int;
        -(nearest(-v, u) * u)
    }
}

/// `e / d` rounded to 24 significant bits, for `d` above 0.
pub open spec fn slope(e: int, d: int) -> int {
    let p = if e >= 0 {
        e
    } else {
        -e
    };
    let u = last_bit((p * ONE / d) as nat) as int;
    let s = nearest(p * ONE, d * u) * u;
    if e >= 0 {
        s
    } else {
        -s
    }
}

/// The height of a line that starts at `b0` after `k` steps of slope `s`, each of which is
/// rounded.
pub open spec fn height(b0: int, s: int, k: nat) -> int
    decreases k,
{
    if k == 0 {
        b0 * ONE
    } else {
        single(height(b0, s, (k - 1) as nat) + s)
    }
}

/// The coordinate at a height: raised by a tenth, rounded down, and kept in range.
pub open spec fn cell(h: int) -> int {
    let c = single(h + TENTH) / ONE as int;
    if c < 0 {
        0
    } else if c > 0xFFFF {
        0xFFFF
    } else {
        c
    }
}

/// The line from `(a0, b0)` to `(a1, b1)` at `a`: its cross coordinate. All sums are those of
/// single precision, so that what is lost on the way counts.
pub open spec fn sample(a0: int, b0: int, a1: int, b1: int, a: int) -> int {
    cell(height(b0, slope(b1 - b0, a1 - a0), (a - a0) as nat))
}

proof fn lemma_nearest(a: int, b: int)
    requires
        0 <= a,
        0 < b,
    ensures
        0 <= nearest(a, b),
        nearest(a, b) * b <= a + b,
        a <= nearest(a, b) * b + b,
        nearest(a, b) <= a / b + 1,
{
    let q = a / b;
    let r = a % b;
    assert(a == q * b + r && 0 <= r < b && 0 <= q) by (nonlinear_arith)
        requires
            0 <= a,
            0 < b,
            q == a / b,
            r == a % b,
    ;
    assert((q + 1) * b == q * b + b) by (nonlinear_arith);
}

proof fn lemma_last_bit(n: nat)
    ensures
        1 <= last_bit(n),
        last_bit(n) == 1 || last_bit(n) * 0x80_0000 <= n,
    decreases n,
{
    if n >= 0x100_0000 {
        lemma_last_bit(n / 2);
    }
}

/// The integer nearest to `a / b`, the even one of two.
fn round_quotient(a: u64, b: u64) -> (q: u64)
    requires
        0 < b <= 0x4000_0000_0000_0000,
        a <= 0x4000_0000_0000_0000,
    ensures
        q == nearest(a as int, b as int),
{
    let q: u64 = a / b;
    let r: u64 = a % b;
    assert(q <= a) by (nonlinear_arith)
        requires
            0 < b,
            q == a / b,
    ;
    if 2 * r < b || (2 * r == b && q % 2 == 0) {
        q
    } else {
        q + 1
    }
}

fn find_last_bit(n: u64) -> (u: u64)
    ensures
        u == last_bit(n as nat),
        1 <= u,
        u == 1 || u * 0x80_0000 <= n,
    decreases n,
{
    if n < 0x100_0000 {
        1
    } else {
        let half: u64 = find_last_bit(n / 2);
        proof {
            lemma_last_bit(n as nat);
            lemma_last_bit((n / 2) as nat);
        }
        2 * half
    }
}

/// Round to 24 significant bits.
fn round_single(v: i64) -> (r: i64)
    requires
        -0x1000_0000_0000_0000 <= v <= 0x1000_0000_0000_0000,
    ensures
        r == single(v as int),
        v - 0x20_0000_0000 <= r <= v + 0x20_0000_0000,
{
    let n: u64 = if v >= 0 {
        v as u64
    } else {
        (-v) as u64
    };
    let u: u64 = find_last_bit(n);
    let q: u64 = round_quotient(n, u);
    proof {
        lemma_nearest(n as int, u as int);
    }
    let r: i64 = (q * u) as i64;
    if v >= 0 {
        r
    } else {
        -r
    }
}

/// The slope of a line that rises by `e` over `d`, rounded to 24 significant bits.
fn round_slope(e: i64, d: i64) -> (r: i64)
    requires
        0 < d <= 0xFFFF,
        -d <= e <= d,
    ensures
        r == slope(e as int, d as int),
        -ONE - 0x10_0000 <= r <= ONE + 0x10_0000,
{
    let p: u64 = if e >= 0 {
        e as u64
    } else {
        (-e) as u64
    };
    let a: u64 = p * 0x100_0000_0000;
    let w: u64 = d as u64;
    let n: u64 = a / w;
    assert(n <= 0x100_0000_0000) by (nonlinear_arith)
        requires
            n == a / w,
            a == p * 0x100_0000_0000,
            p <= w,
            0 < w,
    ;
    let u: u64 = find_last_bit(n);
    assert(0 < w * u <= 0xFFFF * 0x10_0000) by (nonlinear_arith)
        requires
            0 < w <= 0xFFFF,
            1 <= u <= 0x10_0000,
    ;
    let q: u64 = round_quotient(a, w * u);
    proof {
        lemma_nearest(a as int, w * u);
        assert(q * u <= 0x100_0000_0000 + u) by (nonlinear_arith)
            requires
                q * (w * u) <= a + w * u,
                a == p * 0x100_0000_0000,
                p <= w,
                0 < w,
        ;
        assert(0 <= q * u) by (nonlinear_arith);
    }
    let s: i64 = (q * u) as i64;
    if e >= 0 {
        s
    } else {
        -s
    }
}

/// The coordinate at a height.
fn cell_at(h: i64) -> (c: u16)
    requires
        -0x800_0000_0000_0000 <= h <= 0x800_0000_0000_0000,
    ensures
        c == cell(h as int),
{
    let v: i64 = round_single(h + TENTH);
    if v < 0 {
        assert(v as int / (ONE as int) < 0) by (nonlinear_arith)
            requires
                v < 0,
                ONE == 0x100_0000_0000,
        ;
        return 0;
    }
    let c: i64 = v / ONE;
    if c > 0xFFFF {
        0xFFFF
    } else {
        c as u16
    }
}

impl StaticMap {
    /// A tile does not hide what lies behind it: nothing on it stops projectiles and, where
    /// floors count, it has no ground.
    pub open spec fn clear_at(&self, p: Position, block_floor: bool) -> bool {
        !self.opaque_at(p) && !(block_floor && self.stack_at(p) is Some)
    }

    /// The tile on the line from `(a0, b0)` to `(a1, b1)` at `a` on floor `z`. `steep` lines
    /// run along y.
    pub open spec fn on_line(
        a0: int,
        b0: int,
        a1: int,
        b1: int,
        a: int,
        z: u8,
        steep: bool,
    ) -> Position {
        let b = sample(a0, b0, a1, b1, a);
        if steep {
            Position { x: b as u16, y: a as u16, z }
        } else {
            Position { x: a as u16, y: b as u16, z }
        }
    }

    /// Every tile strictly between the ends of the line is clear.
    pub open spec fn line_clear(
        &self,
        a0: int,
        b0: int,
        a1: int,
        b1: int,
        z: u8,
        steep: bool,
    ) -> bool {
        forall|a: int|
            a0 < a < a1 ==> self.clear_at(
                #[trigger] StaticMap::on_line(a0, b0, a1, b1, a, z, steep),
                false,
            )
    }

    /// The line of sight between two tiles of floor `z`, walked along its longer axis.
    pub open spec fn sight_line(&self, x0: int, y0: int, x1: int, y1: int, z: u8) -> bool {
        if x0 == x1 && y0 == y1 {
            true
        } else if gap(y0, y1) > gap(x0, x1) {
            if y1 > y0 {
                self.line_clear(y0, x0, y1, x1, z, true)
            } else {
                self.line_clear(y1, x1, y0, x0, z, true)
            }
        } else if x0 > x1 {
            self.line_clear(x1, y1, x0, y0, z, false)
        } else {
            self.line_clear(x0, y0, x1, y1, z, false)
        }
    }

    /// The line of sight between the columns of two positions on floor `z`.
    pub open spec fn sight_on(&self, from: Position, to: Position, z: u8) -> bool {
        self.sight_line(from.x as int, from.y as int, to.x as int, to.y as int, z)
    }

    /// Can `to` be seen from `from`? On one floor: neighbours always, others along a clear
    /// line there or, unless `same_floor`, one floor up through open tiles. Across floors:
    /// never between ground and underground, up by one floor at most, down through open tiles.
    pub open spec fn sight(&self, from: Position, to: Position, same_floor: bool) -> bool {
        if from.z == to.z {
            if gap(from.x as int, to.x as int) < 2 && gap(from.y as int, to.y as int) < 2 {
                true
            } else {
                let clear = self.sight_on(from, to, from.z);
                if clear || same_floor {
                    clear
                } else if from.z == 0 {
                    true
                } else {
                    let nz = (from.z - 1) as u8;
                    self.clear_at(Position { z: nz, ..from }, true) && self.clear_at(
                        Position { z: nz, ..to },
                        true,
                    ) && self.sight_on(from, to, nz)
                }
            }
        } else if same_floor {
            false
        } else if (from.z < 8 && to.z > 7) || (from.z > 7 && to.z < 8) {
            false
        } else if from.z > to.z {
            from.z - to.z <= 1 && self.clear_at(
                Position { z: (from.z - 1) as u8, ..from },
                true,
            ) && self.sight_on(from, to, (from.z - 1) as u8)
        } else {
            (forall|z: u8|
                from.z <= z < to.z ==> self.clear_at(#[trigger] at_floor(to, z), true))
                && self.sight_on(from, to, from.z)
        }
    }

    /// Can an item be thrown from `from` to `to`?
    pub open spec fn throwable(&self, from: Position, to: Position) -> bool {
        &&& gap(from.x as int, to.x as int) <= THROW_RANGE_X
        &&& gap(from.y as int, to.y as int) <= THROW_RANGE_Y
        &&& self.sight(from, to, false)
    }

    /// A tile is opaque to sight if it stops projectiles or (when `block_floor`) if it has
    /// ground at all.
    pub fn is_tile_clear(&self, x: u16, y: u16, z: u8, block_floor: bool) -> (r: bool)
        ensures
            r == self.clear_at(Position { x, y, z }, block_floor),
    {
        let p = Position { x, y, z };
        if self.is_block_projectile(p) {
            return false;
        }
        !(block_floor && self.has_ground(p))
    }

    /// Walk from `a0` to `a1`, sampling the cross coordinate by the slope of the line.
    fn check_line(&self, a0: u16, b0: u16, a1: u16, b1: u16, z: u8, steep: bool) -> (r: bool)
        requires
            a0 < a1,
            gap(b0 as int, b1 as int) <= a1 - a0,
        ensures
            r == self.line_clear(a0 as int, b0 as int, a1 as int, b1 as int, z, steep),
    {
        let s: i64 = round_slope(b1 as i64 - b0 as i64, a1 as i64 - a0 as i64);
        let mut h: i64 = b0 as i64 * ONE;
        let mut a: u16 = a0;
        while a < a1 - 1
            invariant
                a0 <= a < a1,
                s == slope(b1 - b0, a1 - a0),
                -ONE - 0x10_0000 <= s <= ONE + 0x10_0000,
                h == height(b0 as int, s as int, (a - a0) as nat),
                -2 * (a - a0) * ONE <= h <= (b0 + 2 * (a - a0)) * ONE,
                forall|k: int|
                    a0 < k <= a ==> self.clear_at(
                        #[trigger] StaticMap::on_line(
                            a0 as int,
                            b0 as int,
                            a1 as int,
                            b1 as int,
                            k,
                            z,
                            steep,
                        ),
                        false,
                    ),
            decreases a1 - a,
        {
            h = round_single(h + s);
            a = a + 1;
            let b: u16 = cell_at(h);
            let clear = if steep {
                self.is_tile_clear(b, a, z, false)
            } else {
                self.is_tile_clear(a, b, z, false)
            };
            assert(clear == self.clear_at(
                StaticMap::on_line(a0 as int, b0 as int, a1 as int, b1 as int, a as int, z, steep),
                false,
            ));
            if !clear {
                return false;
            }
        }
        true
    }

    /// Pick the axis to walk along and check the line of sight.
    pub fn check_sight_line(&self, x0: u16, y0: u16, x1: u16, y1: u16, z: u8) -> (r: bool)
        ensures
            r == self.sight_line(x0 as int, y0 as int, x1 as int, y1 as int, z),
    {
        if x0 == x1 && y0 == y1 {
            return true;
        }
        if distance(y0, y1) > distance(x0, x1) {
            if y1 > y0 {
                return self.check_line(y0, x0, y1, x1, z, true);
            }
            return self.check_line(y1, x1, y0, x0, z, true);
        }
        if x0 > x1 {
            return self.check_line(x1, y1, x0, y0, z, false);
        }
        self.check_line(x0, y0, x1, y1, z, false)
    }

    /// Can `to` be seen from `from`? `same_floor` restricts sight to one floor.
    pub fn is_sight_clear(&self, from: Position, to: Position, same_floor: bool) -> (r: bool)
        ensures
            r == self.sight(from, to, same_floor),
    {
        if from.z == to.z {
            if distance(from.x, to.x) < 2 && distance(from.y, to.y) < 2 {
                return true;
            }
            let clear = self.check_sight_line(from.x, from.y, to.x, to.y, from.z);
            if clear || same_floor {
                return clear;
            }
            if from.z == 0 {
                return true;
            }
            let nz: u8 = from.z - 1;
            return self.is_tile_clear(from.x, from.y, nz, true) && self.is_tile_clear(
                to.x,
                to.y,
                nz,
                true,
            ) && self.check_sight_line(from.x, from.y, to.x, to.y, nz);
        }
        if same_floor {
            return false;
        }
        if (from.z < 8 && to.z > 7) || (from.z > 7 && to.z < 8) {
            return false;
        }
        if from.z > to.z {
            if from.z - to.z > 1 {
                return false;
            }
            let nz: u8 = from.z - 1;
            return self.is_tile_clear(from.x, from.y, nz, true) && self.check_sight_line(
                from.x,
                from.y,
                to.x,
                to.y,
                nz,
            );
        }
        let mut z: u8 = from.z;
        while z < to.z
            invariant
                from.z <= z <= to.z,
                forall|k: u8|
                    from.z <= k < z ==> self.clear_at(#[trigger] at_floor(to, k), true),
            decreases to.z - z,
        {
            if !self.is_tile_clear(to.x, to.y, z, true) {
                assert(!self.clear_at(at_floor(to, z), true));
                return false;
            }
            z = z + 1;
        }
        self.check_sight_line(from.x, from.y, to.x, to.y, from.z)
    }

    /// Can an item be thrown from `from` to `to`: within range and in sight?
    pub fn can_throw_object_to(&self, from: Position, to: Position) -> (r: bool)
        ensures
            r == self.throwable(from, to),
    {
        if distance(from.x, to.x) > THROW_RANGE_X || distance(from.y, to.y) > THROW_RANGE_Y {
            return false;
        }
        self.is_sight_clear(from, to, false)
    }
}

/// `p` on floor `z`.
pub open spec fn at_floor(p: Position, z: u8) -> Position {
    Position { z, ..p }
}

/// Sight on one floor is mutual: what is seen from `a` at `b` is seen from `b` at `a`.
pub proof fn law_sight_is_mutual(m: &StaticMap, a: Position, b: Position, same_floor: bool)
    requires
        a.z == b.z,
    ensures
        m.sight(a, b, same_floor) == m.sight(b, a, same_floor),
{
    assert(Position { z: a.z, ..a } == a);
}

/// An item can always be thrown onto its own tile and the tiles around it.
pub proof fn law_neighbours_in_throw_range(m: &StaticMap, a: Position, b: Position)
    requires
        a.z == b.z,
        gap(a.x as int, b.x as int) < 2,
        gap(a.y as int, b.y as int) < 2,
    ensures
        m.throwable(a, b),
{
}

/// Two to the power of `k`.
spec fn doubling(k: nat) -> int
    decreases k,
{
    if k == 0 {
        1
    } else {
        2 * doubling((k - 1) as nat)
    }
}

proof fn lemma_bit_divides(n: nat, k: nat) -> (c: int)
    requires
        n < 0x100_0000 * doubling(k),
    ensures
        c >= 1,
        doubling(k) == last_bit(n) * c,
    decreases n,
{
    if n < 0x100_0000 {
        lemma_doubling(k);
        let c = doubling(k);
        assert(last_bit(n) * c == c) by (nonlinear_arith)
            requires
                last_bit(n) == 1,
        ;
        c
    } else {
        let c = lemma_bit_divides(n / 2, (k - 1) as nat);
        let u = last_bit(n / 2) as int;
        assert(2 * (u * c) == (2 * u) * c) by (nonlinear_arith);
        assert(last_bit(n) == 2 * u);
        c
    }
}

proof fn lemma_doubling(k: nat)
    ensures
        doubling(k) >= 1,
    decreases k,
{
    if k > 0 {
        lemma_doubling((k - 1) as nat);
    }
}

/// Heights that are whole numbers are kept, and lie in their own row.
proof fn lemma_whole_heights(b: int)
    requires
        0 <= b <= 0xFFFF,
    ensures
        single(b * ONE) == b * ONE,
        cell(b * ONE) == b,
{
    reveal_with_fuel(doubling, 33);
    assert(doubling(32) == 0x1_0000_0000);
    let v = b * ONE;
    let u = last_bit(v as nat) as int;
    let c = lemma_bit_divides(v as nat, 32);
    let m = c * 256 * b;
    lemma_last_bit(v as nat);
    assert(v == u * m) by (nonlinear_arith)
        requires
            v == b * 0x100_0000_0000,
            u * c == 0x1_0000_0000,
            m == c * 256 * b,
    ;
    assert(v / u == m && v % u == 0) by (nonlinear_arith)
        requires
            v == u * m,
            u >= 1,
    ;
    assert(nearest(v, u) == m);
    assert(m * u == u * m) by (nonlinear_arith);
    let h = v + TENTH;
    let w = last_bit(h as nat) as int;
    let e = lemma_bit_divides(h as nat, 32);
    lemma_last_bit(h as nat);
    assert(w <= 0x1_0000_0000) by (nonlinear_arith)
        requires
            w * e == 0x1_0000_0000,
            e >= 1,
            w >= 1,
    ;
    lemma_nearest(h, w);
    let s = single(h);
    assert(v <= s < v + ONE);
    assert(s / ONE as int == b) by (nonlinear_arith)
        requires
            v == b * 0x100_0000_0000,
            v <= s < v + 0x100_0000_0000,
            ONE == 0x100_0000_0000,
    ;
}

proof fn lemma_level_line(b: int, k: nat)
    requires
        0 <= b <= 0xFFFF,
    ensures
        height(b, 0, k) == b * ONE,
    decreases k,
{
    if k > 0 {
        lemma_level_line(b, (k - 1) as nat);
        lemma_whole_heights(b);
    }
}

proof fn lemma_level_sample(a0: int, b: int, a1: int, a: int)
    requires
        0 <= b <= 0xFFFF,
        a0 < a < a1,
    ensures
        sample(a0, b, a1, b, a) == b,
{
    let d = a1 - a0;
    assert(0 * ONE / d == 0 && 0int / d == 0 && 0int % d == 0) by (nonlinear_arith)
        requires
            d > 0,
    ;
    let u = last_bit(0) as int;
    assert(u == 1);
    assert(d * u == d) by (nonlinear_arith)
        requires
            u == 1,
    ;
    assert(nearest(0, d) == 0);
    assert(0 * ONE == 0);
    assert(nearest(0 * ONE, d * u) * u == 0);
    assert(slope(0, d) == 0);
    lemma_level_line(b, (a - a0) as nat);
    lemma_whole_heights(b);
}

/// Along a row one sees from tile to tile of a floor if and only if nothing between them hides
/// what lies behind it.
pub proof fn law_sight_along_rows(m: &StaticMap, a: Position, b: Position)
    requires
        a.z == b.z,
        a.y == b.y,
        a.x + 2 <= b.x,
    ensures
        m.sight(a, b, true) <==> forall|x: u16|
            a.x < x < b.x ==> !#[trigger] m.opaque_at(Position { x, y: a.y, z: a.z }),
        m.sight(b, a, true) == m.sight(a, b, true),
{
    law_sight_is_mutual(m, a, b, true);
    let (x0, x1, y) = (a.x as int, b.x as int, a.y as int);
    assert forall|x: int| x0 < x < x1 implies #[trigger] StaticMap::on_line(
        x0,
        y,
        x1,
        y,
        x,
        a.z,
        false,
    ) == (Position { x: x as u16, y: a.y, z: a.z }) by {
        lemma_level_sample(x0, y, x1, x);
    }
    assert(m.sight(a, b, true) == m.line_clear(x0, y, x1, y, a.z, false));
    if m.line_clear(x0, y, x1, y, a.z, false) {
        assert forall|x: u16| a.x < x < b.x implies !#[trigger] m.opaque_at(
            Position { x, y: a.y, z: a.z },
        ) by {
            assert(m.clear_at(StaticMap::on_line(x0, y, x1, y, x as int, a.z, false), false));
        }
    }
    let open_row = forall|x: u16|
        a.x < x < b.x ==> !#[trigger] m.opaque_at(Position { x, y: a.y, z: a.z });
    if open_row {
        assert forall|x: int| x0 < x < x1 implies m.clear_at(
            #[trigger] StaticMap::on_line(x0, y, x1, y, x, a.z, false),
            false,
        ) by {
            assert(!m.opaque_at(Position { x: x as u16, y: a.y, z: a.z }));
        }
    }
}

/// Along a column one sees from tile to tile of a floor if and only if nothing between them hides
/// what lies behind it.
pub proof fn law_sight_along_columns(m: &StaticMap, a: Position, b: Position)
    requires
        a.z == b.z,
        a.x == b.x,
        a.y + 2 <= b.y,
    ensures
        m.sight(a, b, true) <==> forall|y: u16|
            a.y < y < b.y ==> !#[trigger] m.opaque_at(Position { x: a.x, y, z: a.z }),
        m.sight(b, a, true) == m.sight(a, b, true),
{
    law_sight_is_mutual(m, a, b, true);
    let (y0, y1, x) = (a.y as int, b.y as int, a.x as int);
    assert forall|y: int| y0 < y < y1 implies #[trigger] StaticMap::on_line(
        y0,
        x,
        y1,
        x,
        y,
        a.z,
        true,
    ) == (Position { x: a.x, y: y as u16, z: a.z }) by {
        lemma_level_sample(y0, x, y1, y);
    }
    assert(m.sight(a, b, true) == m.line_clear(y0, x, y1, x, a.z, true));
    if m.line_clear(y0, x, y1, x, a.z, true) {
        assert forall|y: u16| a.y < y < b.y implies !#[trigger] m.opaque_at(
            Position { x: a.x, y, z: a.z },
        ) by {
            assert(m.clear_at(StaticMap::on_line(y0, x, y1, x, y as int, a.z, true), false));
        }
    }
    let open_column = forall|y: u16|
        a.y < y < b.y ==> !#[trigger] m.opaque_at(Position { x: a.x, y, z: a.z });
    if open_column {
        assert forall|y: int| y0 < y < y1 implies m.clear_at(
            #[trigger] StaticMap::on_line(y0, x, y1, x, y, a.z, true),
            false,
        ) by {
            assert(!m.opaque_at(Position { x: a.x, y: y as u16, z: a.z }));
        }
    }
}

/// Nothing is seen between the ground or above and underground, nor more than one floor up.
pub proof fn law_floors_block_sight(m: &StaticMap, a: Position, b: Position)
    requires
        a.z <= 7 < b.z || b.z <= 7 < a.z || a.z > b.z + 1,
    ensures
        !m.sight(a, b, false),
        !m.sight(a, b, true),
        !m.throwable(a, b),
{
}

/// Nothing can be thrown more than 8 columns or 6 rows.
pub proof fn law_throws_are_short(m: &StaticMap, a: Position, b: Position)
    requires
        m.throwable(a, b),
    ensures
        -8 <= b.x - a.x <= 8,
        -6 <= b.y - a.y <= 6,
{
}

} // verus!
