//! The bloom pyramid and the order of the post-processing passes.
//!
//! ```text
//! bright    hdr            -> level 0        threshold and downsample
//! down      level i-1      -> level i        downsample, i = 1..n-1
//! up        level i        -> level i-1      upsample, added, i = n-1..1
//! composite hdr + level 0  -> the target     exposure, tone map, grade
//! ```

use vstd::prelude::*;

verus! {

/// Levels in the pyramid of a target that is large enough for them.
pub const LEVELS: u32 = 3;

/// A length halved `n` times, rounding down and never below one.
pub open spec fn halved(x: u32, n: nat) -> u32
    decreases n,
{
    let half = if n == 0 {
        x
    } else {
        halved(x, (n - 1) as nat) / 2
    };
    if half < 1 {
        1
    } else {
        half
    }
}

/// The levels from level `n` on: each is half the one before, and the pyramid stops before a side gets
/// as short as two.
pub open spec fn levels_from(width: u32, height: u32, n: nat) -> Seq<(u32, u32)>
    decreases LEVELS + 1 - n,
{
    let size = (halved(width, n), halved(height, n));
    if n > LEVELS || size.0 <= 2 || size.1 <= 2 {
        Seq::empty()
    } else {
        seq![size] + levels_from(width, height, n + 1)
    }
}

/// The sizes of the pyramid's levels. There is at least one, however small the target.
pub open spec fn spec_level_sizes(width: u32, height: u32) -> Seq<(u32, u32)> {
    let levels = levels_from(width, height, 1);
    if levels.len() == 0 {
        seq![(halved(width, 1), halved(height, 1))]
    } else {
        levels
    }
}

fn half(x: u32) -> (r: u32)
    ensures
        r == (if x / 2 < 1 { 1 } else { x / 2 }),
{
    if x / 2 < 1 {
        1
    } else {
        x / 2
    }
}

/// The sizes of the pyramid's levels for a target.
///
/// There is always at least one: the bright pass has to write somewhere.
pub fn level_sizes(width: u32, height: u32) -> (sizes: Vec<(u32, u32)>)
    ensures
        sizes@ == spec_level_sizes(width, height),
{
    let mut sizes: Vec<(u32, u32)> = Vec::new();
    let mut w: u32 = if width < 1 {
        1
    } else {
        width
    };
    let mut h: u32 = if height < 1 {
        1
    } else {
        height
    };
    let mut n: u32 = 0;
    let mut done = false;
    assert(sizes@ + levels_from(width, height, 1) =~= levels_from(width, height, 1));
    while n < LEVELS && !done
        invariant
            n <= LEVELS,
            w == halved(width, n as nat),
            h == halved(height, n as nat),
            !done ==> sizes@ + levels_from(width, height, n as nat + 1) == levels_from(
                width,
                height,
                1,
            ),
            done ==> sizes@ == levels_from(width, height, 1),
        decreases LEVELS - n,
    {
        w = half(w);
        h = half(h);
        n += 1;
        if w <= 2 || h <= 2 {
            assert(sizes@ + levels_from(width, height, n as nat) =~= sizes@);
            done = true;
        } else {
            let ghost before = sizes@;
            sizes.push((w, h));
            assert(sizes@ + levels_from(width, height, n as nat + 1) =~= before + levels_from(
                width,
                height,
                n as nat,
            ));
        }
    }
    assert(sizes@ + levels_from(width, height, LEVELS as nat + 1) =~= sizes@);
    if sizes.len() == 0 {
        let first = (
            half(
                if width < 1 {
                    1
                } else {
                    width
                },
            ),
            half(
                if height < 1 {
                    1
                } else {
                    height
                },
            ),
        );
        assert(halved(width, 0) == (if width < 1 { 1 } else { width }));
        assert(halved(height, 0) == (if height < 1 { 1 } else { height }));
        sizes.push(first);
        assert(sizes@ =~= seq![(halved(width, 1), halved(height, 1))]);
    }
    sizes
}

/// Whether the pyramid has to be rebuilt for a target: because the scene image that its passes read was
/// made again, or because its levels would have other sizes.
pub fn needs_rebuild(levels: &Vec<(u32, u32)>, width: u32, height: u32, hdr_changed: bool) -> (r: bool)
    ensures
        r == (hdr_changed || levels@ != spec_level_sizes(width, height)),
{
    if hdr_changed {
        return true;
    }
    let want = level_sizes(width, height);
    if levels.len() != want.len() {
        return true;
    }
    let mut i: usize = 0;
    while i < want.len()
        invariant
            i <= want@.len() == levels@.len(),
            want@ == spec_level_sizes(width, height),
            forall|k: int| 0 <= k < i ==> levels@[k] == want@[k],
        decreases want@.len() - i,
    {
        if levels[i].0 != want[i].0 || levels[i].1 != want[i].1 {
            assert(levels@[i as int] != want@[i as int]);
            return true;
        }
        i += 1;
    }
    assert(levels@ =~= want@);
    false
}

proof fn lemma_levels(width: u32, height: u32, n: nat, i: int)
    requires
        0 <= i < levels_from(width, height, n).len(),
    ensures
        levels_from(width, height, n)[i] == (halved(width, n + i as nat), halved(height, n + i as nat)),
        levels_from(width, height, n)[i].0 > 2 && levels_from(width, height, n)[i].1 > 2,
        n + i <= LEVELS,
    decreases i,
{
    if i > 0 {
        lemma_levels(width, height, n + 1, i - 1);
        assert(levels_from(width, height, n)[i] == levels_from(width, height, n + 1)[i - 1]);
    }
}

/// The pyramid halves and never collapses: it has one to three levels, level `i` is the target halved
/// `i + 1` times, and no side is empty.
pub proof fn law_the_pyramid_halves_and_never_collapses(width: u32, height: u32, i: int)
    ensures
        1 <= spec_level_sizes(width, height).len() <= LEVELS,
        0 <= i < spec_level_sizes(width, height).len() ==> {
            let level = spec_level_sizes(width, height)[i];
            &&& level == (halved(width, i as nat + 1), halved(height, i as nat + 1))
            &&& level.0 >= 1 && level.1 >= 1
            &&& (spec_level_sizes(width, height).len() > 1 ==> level.0 > 2 && level.1 > 2)
        },
{
    let levels = levels_from(width, height, 1);
    if levels.len() > 0 {
        lemma_levels(width, height, 1, levels.len() - 1);
        if 0 <= i < levels.len() {
            lemma_levels(width, height, 1, i);
        }
    }
}

/// What a pass of the chain does.
#[derive(Debug, Clone, Copy, PartialEq, Eq, Structural)]
pub enum PostPipeline {
    /// Keep what is bright.
    Bright,
    /// Halve the resolution.
    Down,
    /// Double the resolution and add.
    Up,
    /// Put scene and glow together, tone-mapped and graded.
    Composite,
}

/// An image that a pass reads or writes.
#[derive(Debug, Clone, Copy, PartialEq, Eq, Structural)]
pub enum PostImage {
    /// The scene before tone mapping.
    Hdr,
    /// A level of the pyramid.
    Level(u32),
    /// What the frame is presented from.
    Target,
}

/// One full-screen pass of the chain.
#[derive(Debug, Clone, Copy, PartialEq, Eq, Structural)]
pub struct PostStep {
    /// What the pass does.
    pub pipeline: PostPipeline,
    /// The image in the first slot.
    pub first: PostImage,
    /// The image in the second slot. All but the composite leave it unread; it still has to be bound,
    /// and binding what the pass writes is not allowed, so it repeats the first.
    pub second: PostImage,
    /// The image that is written.
    pub dest: PostImage,
    /// Whether the image is cleared first rather than added to.
    pub clear: bool,
}

/// Pass `k` of a chain over `n` levels.
pub open spec fn spec_step(n: int, k: int) -> PostStep {
    if k == 0 {
        PostStep {
            pipeline: PostPipeline::Bright,
            first: PostImage::Hdr,
            second: PostImage::Hdr,
            dest: PostImage::Level(0),
            clear: true,
        }
    } else if k < n {
        PostStep {
            pipeline: PostPipeline::Down,
            first: PostImage::Level((k - 1) as u32),
            second: PostImage::Level((k - 1) as u32),
            dest: PostImage::Level(k as u32),
            clear: true,
        }
    } else if k < 2 * n - 1 {
        let i = 2 * n - 1 - k;
        PostStep {
            pipeline: PostPipeline::Up,
            first: PostImage::Level(i as u32),
            second: PostImage::Level(i as u32),
            dest: PostImage::Level((i - 1) as u32),
            clear: false,
        }
    } else {
        PostStep {
            pipeline: PostPipeline::Composite,
            first: PostImage::Hdr,
            second: PostImage::Level(0),
            dest: PostImage::Target,
            clear: true,
        }
    }
}

/// The passes of a chain over `n` levels: down the pyramid, back up, and out.
pub open spec fn spec_steps(n: int) -> Seq<PostStep> {
    Seq::new((2 * n) as nat, |k: int| spec_step(n, k))
}

/// The passes of a chain over `levels` levels, in order.
pub fn post_steps(levels: u32) -> (steps: Vec<PostStep>)
    requires
        0 < levels,
    ensures
        steps@ == spec_steps(levels as int),
{
    let mut steps: Vec<PostStep> = Vec::new();
    steps.push(
        PostStep {
            pipeline: PostPipeline::Bright,
            first: PostImage::Hdr,
            second: PostImage::Hdr,
            dest: PostImage::Level(0),
            clear: true,
        },
    );
    let mut i: u32 = 1;
    while i < levels
        invariant
            1 <= i <= levels,
            steps@.len() == i,
            forall|k: int| 0 <= k < i ==> #[trigger] steps@[k] == spec_step(levels as int, k),
        decreases levels - i,
    {
        steps.push(
            PostStep {
                pipeline: PostPipeline::Down,
                first: PostImage::Level(i - 1),
                second: PostImage::Level(i - 1),
                dest: PostImage::Level(i),
                clear: true,
            },
        );
        i += 1;
    }
    let mut j: u32 = levels - 1;
    while j > 0
        invariant
            0 <= j < levels,
            steps@.len() == 2 * levels - 1 - j,
            forall|k: int|
                0 <= k < steps@.len() ==> #[trigger] steps@[k] == spec_step(levels as int, k),
        decreases j,
    {
        steps.push(
            PostStep {
                pipeline: PostPipeline::Up,
                first: PostImage::Level(j),
                second: PostImage::Level(j),
                dest: PostImage::Level(j - 1),
                clear: false,
            },
        );
        j -= 1;
    }
    steps.push(
        PostStep {
            pipeline: PostPipeline::Composite,
            first: PostImage::Hdr,
            second: PostImage::Level(0),
            dest: PostImage::Target,
            clear: true,
        },
    );
    assert(steps@ =~= spec_steps(levels as int));
    steps
}

/// No pass reads the image that it writes, which the device would refuse.
pub proof fn law_no_pass_reads_what_it_writes(n: int, k: int)
    requires
        0 < n <= u32::MAX,
        0 <= k < 2 * n,
    ensures
        spec_steps(n)[k].first != spec_steps(n)[k].dest,
        spec_steps(n)[k].second != spec_steps(n)[k].dest,
{
}

/// Every level that a pass reads or adds to has been written by an earlier pass of the frame, so no
/// glow of an earlier frame is left in it.
pub proof fn law_levels_are_written_before_they_are_read(n: int, k: int, level: u32)
    requires
        0 < n <= u32::MAX,
        0 <= k < 2 * n,
        spec_steps(n)[k].first == PostImage::Level(level) || spec_steps(n)[k].second
            == PostImage::Level(level) || (!spec_steps(n)[k].clear && spec_steps(n)[k].dest
            == PostImage::Level(level)),
    ensures
        exists|j: int|
            0 <= j < k && (#[trigger] spec_steps(n)[j]).dest == PostImage::Level(level)
                && spec_steps(n)[j].clear,
{
    assert(level < n);
    assert(level < k);
    assert(spec_steps(n)[level as int].dest == PostImage::Level(level));
    assert(spec_steps(n)[level as int].clear);
}

/// The last pass, and only the last, writes what is presented.
pub proof fn law_only_the_last_pass_presents(n: int, k: int)
    requires
        0 < n <= u32::MAX,
        0 <= k < 2 * n,
    ensures
        spec_steps(n)[k].dest == PostImage::Target <==> k == 2 * n - 1,
{
}

/// The entry point of the composite shader for a target.
///
/// A target in sRGB is encoded by the hardware on writing, so the shader writes linear colour; any
/// other target needs the shader to encode.
pub fn composite_entry(is_srgb: bool) -> (entry: &'static str)
    ensures
        entry@ == (if is_srgb {
            "fs_composite"@
        } else {
            "fs_composite_encoded"@
        }),
{
    if is_srgb {
        "fs_composite"
    } else {
        "fs_composite_encoded"
    }
}

/// Halving `n` times divides by the `n`-th power of two, and never leaves less than one.
pub proof fn law_halving_divides_by_a_power_of_two(x: u32, n: nat)
    ensures
        halved(x, n) == (if x as int / vstd::arithmetic::power2::pow2(n) as int >= 1 {
            x as int / vstd::arithmetic::power2::pow2(n) as int
        } else {
            1
        }),
    decreases n,
{
    vstd::arithmetic::power2::lemma_pow2_pos(n);
    if n == 0 {
        vstd::arithmetic::power2::lemma2_to64();
    } else {
        let m = (n - 1) as nat;
        law_halving_divides_by_a_power_of_two(x, m);
        vstd::arithmetic::power2::lemma_pow2_pos(m);
        vstd::arithmetic::power2::lemma_pow2_unfold(n);
        let p = vstd::arithmetic::power2::pow2(m) as int;
        vstd::arithmetic::div_mod::lemma_div_denominator(x as int, p, 2);
        assert(p * 2 == vstd::arithmetic::power2::pow2(n));
    }
}

/// The pyramid has a second level if a quarter of each side is longer than two, and a third if an eighth
/// is; there is never a fourth.
pub proof fn law_the_pyramid_is_as_deep_as_it_can_be(width: u32, height: u32)
    ensures
        spec_level_sizes(width, height).len() >= 2 <==> width / 4 > 2 && height / 4 > 2,
        spec_level_sizes(width, height).len() >= 3 <==> width / 8 > 2 && height / 8 > 2,
        1 <= spec_level_sizes(width, height).len() <= 3,
        width >= 2 ==> spec_level_sizes(width, height)[0].0 == width / 2,
        height >= 2 ==> spec_level_sizes(width, height)[0].1 == height / 2,
{
    reveal_with_fuel(halved, 5);
    reveal_with_fuel(levels_from, 5);
}

/// Each pass of the chain reads what the pass before it wrote, from the scene down the pyramid and back up;
/// the composite reads the scene and the top level. Only the passes that go up add to what is there.
pub proof fn law_each_pass_reads_what_the_last_one_wrote(n: int, k: int)
    requires
        0 < n <= u32::MAX,
        0 <= k < 2 * n,
    ensures
        spec_steps(n).len() == 2 * n,
        k == 0 ==> spec_steps(n)[k].first == PostImage::Hdr && spec_steps(n)[k].dest == PostImage::Level(0),
        0 < k < 2 * n - 1 ==> spec_steps(n)[k].first == spec_steps(n)[k - 1].dest,
        k == 2 * n - 1 ==> spec_steps(n)[k].first == PostImage::Hdr && spec_steps(n)[k].second
            == PostImage::Level(0) && spec_steps(n)[k - 1].dest == PostImage::Level(0),
        k == 2 * n - 1 <==> spec_steps(n)[k].dest == PostImage::Target,
        k < 2 * n - 1 ==> spec_steps(n)[k].second == spec_steps(n)[k].first,
        spec_steps(n)[k].clear <==> spec_steps(n)[k].pipeline != PostPipeline::Up,
        spec_steps(n)[k].pipeline == PostPipeline::Bright <==> k == 0,
        spec_steps(n)[k].pipeline == PostPipeline::Composite <==> k == 2 * n - 1,
        spec_steps(n)[k].pipeline == PostPipeline::Down ==> (spec_steps(n)[k].first matches PostImage::Level(
            from,
        ) && spec_steps(n)[k].dest == PostImage::Level((from + 1) as u32)),
        spec_steps(n)[k].pipeline == PostPipeline::Up ==> (spec_steps(n)[k].first matches PostImage::Level(
            from,
        ) && from > 0 && spec_steps(n)[k].dest == PostImage::Level((from - 1) as u32)),
        k == n - 1 ==> spec_steps(n)[k].dest == PostImage::Level((n - 1) as u32),
{
}

} // verus!
