//! The random number generator that worlds are spawned from: PCG-XSH-RR, 64 bits of state, 32 bits of
//! output.
//!
//! It is plain integer arithmetic, so the same seed gives the same world on every machine.

use vstd::prelude::*;

verus! {

/// The multiplier of the state transition.
pub const MULTIPLIER: u64 = 6_364_136_223_846_793_005;

/// The state after one draw: a linear congruential step modulo 2^64.
#[verifier::opaque]
pub open spec fn advance(state: u64, inc: u64) -> u64 {
    ((state * MULTIPLIER + inc) % 0x1_0000_0000_0000_0000) as u64
}

/// `x` rotated right by `by` bits.
pub open spec fn rotated(x: u32, by: u32) -> u32 {
    (x >> by) | (x << ((32 - by) as u32 & 31))
}

/// The number drawn from a state: its high bits folded down and rotated by its topmost five.
pub open spec fn output(state: u64) -> u32 {
    rotated((((state >> 18) ^ state) >> 27) as u32, (state >> 59) as u32)
}

/// The state and the increment of a generator.
pub struct PcgView {
    pub state: u64,
    pub inc: u64,
}

impl PcgView {
    /// The generator that a seed and a stream select: the stream is the increment, made odd, and the
    /// seed is added to the state after a first draw and stirred in by a second.
    pub open spec fn seeded(seed: u64, stream: u64) -> PcgView {
        let inc = (stream << 1) | 1;
        let stirred = ((advance(0, inc) + seed) % 0x1_0000_0000_0000_0000) as u64;
        PcgView { state: advance(stirred, inc), inc }
    }

    /// The generator after one draw.
    pub open spec fn next(self) -> PcgView {
        PcgView { state: advance(self.state, self.inc), inc: self.inc }
    }

    /// The first `n` numbers drawn.
    pub open spec fn draws(self, n: nat) -> Seq<u32>
        decreases n,
    {
        if n == 0 {
            Seq::empty()
        } else {
            seq![output(self.state)] + self.next().draws((n - 1) as nat)
        }
    }
}

/// Deterministic random number generator.
#[derive(Debug, Clone, PartialEq, Eq)]
pub struct Pcg32 {
    state: u64,
    inc: u64,
}

impl View for Pcg32 {
    type V = PcgView;

    closed spec fn view(&self) -> PcgView {
        PcgView { state: self.state, inc: self.inc }
    }
}

impl Pcg32 {
    /// Creates a generator from a seed and a stream selector. Different streams of one seed are
    /// independent sequences.
    pub fn new(seed: u64, stream: u64) -> (rng: Self)
        ensures
            rng@ == PcgView::seeded(seed, stream),
    {
        let mut rng = Pcg32 { state: 0, inc: (stream << 1) | 1 };
        rng.next_u32();
        rng.state = rng.state.wrapping_add(seed);
        rng.next_u32();
        rng
    }

    /// The next 32 bits.
    pub fn next_u32(&mut self) -> (drawn: u32)
        ensures
            drawn == output(old(self)@.state),
            final(self)@ == old(self)@.next(),
    {
        proof {
            reveal(advance);
        }
        let before: u64 = self.state;
        self.state = before.wrapping_mul(MULTIPLIER).wrapping_add(self.inc);
        let xorshifted: u32 = #[verifier::truncate] ((((before >> 18) ^ before) >> 27) as u32);
        let rot: u32 = #[verifier::truncate] ((before >> 59) as u32);
        assert(((before >> 59) as u32) < 32) by (bit_vector);
        let left: u32 = 32 - rot;
        assert(left & 31 < 32) by (bit_vector);
        (xorshifted >> rot) | (xorshifted << (left & 31))
    }

    /// The next 24 bits: the numerator of a uniform draw from `[0, 1)` whose denominator is 2^24.
    ///
    /// Twenty-four bits are what a single holds exactly, which keeps the draw strictly below one.
    pub fn next_u24(&mut self) -> (drawn: u32)
        ensures
            drawn == output(old(self)@.state) >> 8,
            drawn < 0x100_0000,
            final(self)@ == old(self)@.next(),
    {
        let bits: u32 = self.next_u32();
        assert(bits >> 8 < 0x100_0000) by (bit_vector);
        bits >> 8
    }
}

/// Every generator keeps its increment, and the increment of a seeded one is odd, which the period of
/// the sequence depends on.
pub proof fn law_the_increment_is_odd(seed: u64, stream: u64)
    ensures
        PcgView::seeded(seed, stream).inc % 2 == 1,
        PcgView::seeded(seed, stream).next().inc == PcgView::seeded(seed, stream).inc,
{
    assert(((stream << 1) | 1) % 2 == 1) by (bit_vector);
}

/// The multiplier is invertible modulo 2^64.
proof fn lemma_multiplier_is_invertible(d: int, q: int)
    requires
        d * (MULTIPLIER as int) == 0x1_0000_0000_0000_0000 * q,
        -0x1_0000_0000_0000_0000 < d < 0x1_0000_0000_0000_0000,
    ensures
        d == 0,
{
    let m: int = MULTIPLIER as int;
    let n: int = 0x1_0000_0000_0000_0000;
    let inverse: int = 0xc097ef87329e28a5;
    let r: int = 0x4271e21c27ccec3e;
    assert(m * inverse == n * r + 1);
    let k = q * inverse - d * r;
    assert(d == n * k) by (nonlinear_arith)
        requires
            d * m == n * q,
            m * inverse == n * r + 1,
            k == q * inverse - d * r,
    ;
    assert(k == 0) by (nonlinear_arith)
        requires
            d == n * k,
            -n < d < n,
            n > 0,
    ;
}

/// No two states of one stream run into each other: the state before a draw follows from the state
/// after it.
pub proof fn law_draws_never_merge(a: u64, b: u64, inc: u64)
    ensures
        advance(a, inc) == advance(b, inc) ==> a == b,
{
    reveal(advance);
    if advance(a, inc) == advance(b, inc) {
        let n: int = 0x1_0000_0000_0000_0000;
        let x = a * MULTIPLIER + inc;
        let y = b * MULTIPLIER + inc;
        vstd::arithmetic::div_mod::lemma_fundamental_div_mod(x, n);
        vstd::arithmetic::div_mod::lemma_fundamental_div_mod(y, n);
        let (qx, qy) = (x / n, y / n);
        let m: int = MULTIPLIER as int;
        assert((a - b) * m == n * (qx - qy)) by (nonlinear_arith)
            requires
                a * m + inc == n * qx + x % n,
                b * m + inc == n * qy + y % n,
                x % n == y % n,
        ;
        lemma_multiplier_is_invertible(a - b, qx - qy);
    }
}

proof fn lemma_draws_len(rng: PcgView, n: nat)
    ensures
        rng.draws(n).len() == n,
    decreases n,
{
    if n > 0 {
        lemma_draws_len(rng.next(), (n - 1) as nat);
    }
}

/// Equal generators draw equal numbers for ever: what is drawn is a function of seed and stream, and
/// drawing more changes nothing drawn before.
pub proof fn law_longer_runs_extend_shorter_ones(rng: PcgView, n: nat, m: nat)
    requires
        n <= m,
    ensures
        rng.draws(n).len() == n,
        rng.draws(n) == rng.draws(m).take(n as int),
    decreases m,
{
    lemma_draws_len(rng, n);
    lemma_draws_len(rng, m);
    if n > 0 {
        law_longer_runs_extend_shorter_ones(rng.next(), (n - 1) as nat, (m - 1) as nat);
        let first = seq![output(rng.state)];
        assert(rng.draws(m).take(n as int) =~= first + rng.next().draws((m - 1) as nat).take(n - 1));
    } else {
        assert(rng.draws(m).take(0) =~= Seq::<u32>::empty());
    }
}

/// A draw moves the state by a linear step modulo 2^64, and the step can be undone.
pub proof fn law_a_draw_is_a_linear_step(state: u64, inc: u64)
    ensures
        (state * 6_364_136_223_846_793_005 + inc) % 0x1_0000_0000_0000_0000 == advance(state, inc),
        ((advance(state, inc) - inc) * 0xc097_ef87_329e_28a5) % 0x1_0000_0000_0000_0000 == state,
{
    reveal(advance);
    let n: int = 0x1_0000_0000_0000_0000;
    let m: int = 6_364_136_223_846_793_005;
    let inverse: int = 0xc097_ef87_329e_28a5;
    let x = state * m + inc;
    let q = x / n;
    vstd::arithmetic::div_mod::lemma_fundamental_div_mod(x, n);
    let r: int = 0x4271_e21c_27cc_ec3e;
    assert(m * inverse == n * r + 1);
    let k = state * r - q * inverse;
    assert((x % n - inc) * inverse == n * k + state) by (nonlinear_arith)
        requires
            x == state * m + inc,
            x == n * q + x % n,
            m * inverse == n * r + 1,
            k == state * r - q * inverse,
    ;
    vstd::arithmetic::div_mod::lemma_mod_multiples_vanish(k, state as int, n);
}

/// What is drawn is the fold of the state's high bits: turned back by the topmost five, it is the folded
/// bits themselves.
pub proof fn law_a_draw_is_the_folded_state(state: u64)
    ensures
        ({
            let top = (state >> 59) as u32;
            (output(state) << top) | (output(state) >> ((32 - top) as u32 & 31))
        }) == (((state >> 18) ^ state) >> 27) as u32,
{
    let x = (((state >> 18) ^ state) >> 27) as u32;
    let top = (state >> 59) as u32;
    assert(((state >> 59) as u32) < 32) by (bit_vector);
    let y = output(state);
    let left = (32 - top) as u32;
    assert((y << top) | (y >> (left & 31)) == x) by (bit_vector)
        requires
            top < 32,
            left == 32 - top,
            y == (x >> top) | (x << (left & 31)),
    ;
}

/// A seeded generator starts from its seed and its stream: the increment is twice the stream and one, and
/// the state is one step from the sum of the increment and the seed.
pub proof fn law_seed_and_stream_decide_the_start(seed: u64, stream: u64)
    ensures
        PcgView::seeded(seed, stream).inc == (2 * stream + 1) % 0x1_0000_0000_0000_0000,
        PcgView::seeded(seed, stream).state == advance(
            ((PcgView::seeded(seed, stream).inc + seed) % 0x1_0000_0000_0000_0000) as u64,
            PcgView::seeded(seed, stream).inc,
        ),
        PcgView::seeded(seed, stream).next() == (PcgView {
            state: advance(PcgView::seeded(seed, stream).state, PcgView::seeded(seed, stream).inc),
            inc: PcgView::seeded(seed, stream).inc,
        }),
{
    reveal(advance);
    assert((stream << 1) | 1 == (2 * stream + 1) % 0x1_0000_0000_0000_0000) by (bit_vector);
}

} // verus!
