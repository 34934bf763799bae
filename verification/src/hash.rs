//! Integer hashing: the noise that terrain, reef and wander are made of.
//!
//! The mixing is on integers because a hash on singles degenerates once its input outgrows the 24-bit
//! mantissa. A hash that stands for a real number in `[0, 1)` is given as the 24-bit numerator over
//! 2^24, which a single holds exactly.

use vstd::prelude::*;

verus! {

/// The product modulo 2^32.
pub open spec fn wrapped(a: u32, b: u32) -> u32 {
    ((a * b) % 0x1_0000_0000) as u32
}

/// The upper bits folded onto the lower ones.
pub open spec fn folded(h: u32, by: u32) -> u32 {
    h ^ (h >> by)
}

/// Low-bias 32-bit finaliser: three folds with two multiplications in between.
pub open spec fn spec_hash(h: u32) -> u32 {
    folded(wrapped(folded(wrapped(folded(h, 16), 0x7feb_352d), 15), 0x846c_a68b), 16)
}

/// Low-bias 32-bit integer finaliser.
pub fn hash_u32(h: u32) -> (mixed: u32)
    ensures
        mixed == spec_hash(h),
{
    let a: u32 = h ^ (h >> 16);
    let b: u32 = a.wrapping_mul(0x7feb_352d);
    let c: u32 = b ^ (b >> 15);
    let d: u32 = c.wrapping_mul(0x846c_a68b);
    d ^ (d >> 16)
}

/// The numerator of the hash of `h` as a number in `[0, 1)`.
pub fn hash_unit(h: u32) -> (numerator: u32)
    ensures
        numerator == spec_hash(h) >> 8,
        numerator < 0x100_0000,
{
    let mixed: u32 = hash_u32(h);
    assert(mixed >> 8 < 0x100_0000) by (bit_vector);
    mixed >> 8
}

/// The hash of a lattice point: each coordinate is spread over the word before it is mixed in.
pub open spec fn spec_lattice(x: i32, y: i32) -> u32 {
    spec_hash(wrapped(x as u32, 0x9e37_79b9) ^ spec_hash(wrapped(y as u32, 0x85eb_ca6b)))
}

/// The numerator of the hash of a lattice point as a number in `[0, 1)`.
pub fn hash21(x: i32, y: i32) -> (numerator: u32)
    ensures
        numerator == spec_lattice(x, y) >> 8,
        numerator < 0x100_0000,
{
    let xi: u32 = #[verifier::truncate] (x as u32);
    let yi: u32 = #[verifier::truncate] (y as u32);
    let inner: u32 = hash_u32(yi.wrapping_mul(0x85eb_ca6b));
    hash_unit(xi.wrapping_mul(0x9e37_79b9) ^ inner)
}

/// What the three components of the wander force of an agent in a tick are hashed from.
pub open spec fn wander_base(index: u32, tick: u32) -> u32 {
    wrapped(index, 0x9e37_79b9) ^ wrapped(tick, 0x85eb_ca6b)
}

/// The numerators of the three components of an agent's wander direction, each in `[0, 1)`.
pub fn wander_units(index: u32, tick: u32) -> (units: [u32; 3])
    ensures
        units@[0] == spec_hash(wander_base(index, tick)) >> 8,
        units@[1] == spec_hash(wander_base(index, tick) ^ 0x27d4_eb2d) >> 8,
        units@[2] == spec_hash(wander_base(index, tick) ^ 0x1656_67b1) >> 8,
        forall|i: int| 0 <= i < 3 ==> #[trigger] units@[i] < 0x100_0000,
{
    let base: u32 = index.wrapping_mul(0x9e37_79b9) ^ tick.wrapping_mul(0x85eb_ca6b);
    [hash_unit(base), hash_unit(base ^ 0x27d4_eb2d), hash_unit(base ^ 0x1656_67b1)]
}

/// Multiplying by a factor that has an inverse modulo 2^32 loses nothing.
proof fn lemma_invertible(a: u32, b: u32, m: u32, inverse: int, r: int)
    requires
        m * inverse == 0x1_0000_0000 * r + 1,
        wrapped(a, m) == wrapped(b, m),
    ensures
        a == b,
{
    let n: int = 0x1_0000_0000;
    let (x, y) = (a * m, b * m);
    vstd::arithmetic::div_mod::lemma_fundamental_div_mod(x, n);
    vstd::arithmetic::div_mod::lemma_fundamental_div_mod(y, n);
    let d = a - b;
    let q = x / n - y / n;
    assert(d * m == n * q) by (nonlinear_arith)
        requires
            d == a - b,
            a * m == x,
            b * m == y,
            x == n * (x / n) + x % n,
            y == n * (y / n) + y % n,
            x % n == y % n,
            q == x / n - y / n,
    ;
    let k = q * inverse - d * r;
    assert(d == n * k) by (nonlinear_arith)
        requires
            d * m == n * q,
            m * inverse == n * r + 1,
            k == q * inverse - d * r,
    ;
    assert(k == 0) by (nonlinear_arith)
        requires
            d == n * k,
            -n < d < n,
            n > 0,
    ;
}

/// The finaliser loses nothing: no two words are mixed to the same word.
pub proof fn law_the_finaliser_never_collides(a: u32, b: u32)
    ensures
        spec_hash(a) == spec_hash(b) ==> a == b,
{
    if spec_hash(a) == spec_hash(b) {
        let (a1, b1) = (folded(a, 16), folded(b, 16));
        let (a2, b2) = (wrapped(a1, 0x7feb_352d), wrapped(b1, 0x7feb_352d));
        let (a3, b3) = (folded(a2, 15), folded(b2, 15));
        let (a4, b4) = (wrapped(a3, 0x846c_a68b), wrapped(b3, 0x846c_a68b));
        assert((a4 ^ (a4 >> 16)) == (b4 ^ (b4 >> 16)) ==> a4 == b4) by (bit_vector);
        lemma_invertible(a3, b3, 0x846c_a68b, 0x43021123, 0x22a9814d);
        assert((a2 ^ (a2 >> 15)) == (b2 ^ (b2 >> 15)) ==> a2 == b2) by (bit_vector);
        lemma_invertible(a1, b1, 0x7feb_352d, 0x1d69e2a5, 0xeb28dbf);
        assert((a ^ (a >> 16)) == (b ^ (b >> 16)) ==> a == b) by (bit_vector);
    }
}

/// The way back from a hash: the folds and the multiplications undone, last first.
pub open spec fn unmixed(h: u32) -> u32 {
    let a = h ^ (h >> 16);
    let b = ((a * 0x4302_1123) % 0x1_0000_0000) as u32;
    let c = b ^ (b >> 15) ^ (b >> 30);
    let d = ((c * 0x1d69_e2a5) % 0x1_0000_0000) as u32;
    d ^ (d >> 16)
}

proof fn lemma_undo_product(a: u32, m: u32, inverse: u32)
    requires
        (m * inverse) % 0x1_0000_0000 == 1,
    ensures
        (wrapped(a, m) * inverse) % 0x1_0000_0000 == a,
{
    let n: int = 0x1_0000_0000;
    vstd::arithmetic::div_mod::lemma_mul_mod_noop_left(a * m, inverse as int, n);
    assert((a * m) * inverse == a * (m * inverse)) by (nonlinear_arith);
    vstd::arithmetic::div_mod::lemma_mul_mod_noop_right(a as int, m * inverse, n);
    assert((a * 1) % n == a);
}

/// The finaliser can be undone: the way back leads from every hash to the word that it came from.
pub proof fn law_the_finaliser_can_be_undone(h: u32)
    ensures
        unmixed(spec_hash(h)) == h,
{
    let a = folded(h, 16);
    let b = wrapped(a, 0x7feb_352d);
    let c = folded(b, 15);
    let d = wrapped(c, 0x846c_a68b);
    let e = folded(d, 16);
    assert(e ^ (e >> 16) == d) by (bit_vector)
        requires
            e == d ^ (d >> 16),
    ;
    assert((0x846c_a68bu32 * 0x4302_1123u32) % 0x1_0000_0000 == 1);
    lemma_undo_product(c, 0x846c_a68b, 0x4302_1123);
    assert(c ^ (c >> 15) ^ (c >> 30) == b) by (bit_vector)
        requires
            c == b ^ (b >> 15),
    ;
    assert((0x7feb_352du32 * 0x1d69_e2a5u32) % 0x1_0000_0000 == 1);
    lemma_undo_product(a, 0x7feb_352d, 0x1d69_e2a5);
    assert(a ^ (a >> 16) == h) by (bit_vector)
        requires
            a == h ^ (h >> 16),
    ;
}

/// A lattice point leaves its mark: undone, the hash of a point is its first coordinate, spread by one
/// factor, against the hash of its second, spread by another.
pub proof fn law_lattice_points_leave_their_mark(x: i32, y: i32)
    ensures
        unmixed(spec_lattice(x, y)) ^ spec_hash((((y as u32) * 0x85eb_ca6b) % 0x1_0000_0000) as u32) == ((
        (x as u32) * 0x9e37_79b9) % 0x1_0000_0000) as u32,
{
    let a = wrapped(x as u32, 0x9e37_79b9);
    let b = spec_hash(wrapped(y as u32, 0x85eb_ca6b));
    law_the_finaliser_can_be_undone(a ^ b);
    assert((a ^ b) ^ b == a) by (bit_vector);
}

/// The agent and the tick are spread by two different factors, so that neither hides the other.
pub proof fn law_wander_tells_agents_and_ticks_apart(index: u32, tick: u32)
    ensures
        wander_base(index, tick) ^ (((tick * 0x85eb_ca6b) % 0x1_0000_0000) as u32) == ((index
            * 0x9e37_79b9) % 0x1_0000_0000) as u32,
{
    let a = wrapped(index, 0x9e37_79b9);
    let b = wrapped(tick, 0x85eb_ca6b);
    assert((a ^ b) ^ b == a) by (bit_vector);
}

} // verus!
