//! Decisions about the device, the swapchain and the frame targets.

use vstd::prelude::*;

verus! {

/// What is asked of a device, beyond the defaults.
#[derive(Debug, Clone, Copy, PartialEq, Eq, Structural)]
pub struct DevicePlan {
    /// Whether to ask for timestamp queries.
    pub timestamps: bool,
    /// Storage buffers that a shader stage may bind.
    pub storage_buffers: u32,
}

/// Storage buffers that a shader stage needs at least.
pub const MIN_STORAGE_BUFFERS: u32 = 8;

/// Plans the device for an adapter: timestamps if they are wanted and offered, and as many storage
/// buffers as are offered, but no fewer than the shaders need.
pub fn device_plan(want_timestamps: bool, has_timestamps: bool, storage_buffers: u32) -> (plan: DevicePlan)
    ensures
        plan.timestamps == (want_timestamps && has_timestamps),
        plan.storage_buffers == (if storage_buffers < MIN_STORAGE_BUFFERS {
            MIN_STORAGE_BUFFERS
        } else {
            storage_buffers
        }),
{
    DevicePlan {
        timestamps: want_timestamps && has_timestamps,
        storage_buffers: if storage_buffers < MIN_STORAGE_BUFFERS {
            MIN_STORAGE_BUFFERS
        } else {
            storage_buffers
        },
    }
}

/// Picks a swapchain format, given for each offered format whether it is in sRGB: the first that is,
/// else the first of all.
pub fn choose_format(is_srgb: &[bool]) -> (r: Result<usize, String>)
    ensures
        match r {
            Ok(i) => {
                &&& i < is_srgb@.len()
                &&& is_srgb@[i as int] ==> !is_srgb@.take(i as int).contains(true)
                &&& !is_srgb@[i as int] ==> i == 0 && !is_srgb@.contains(true)
            },
            Err(e) => is_srgb@.len() == 0 && e@ == "adapter offers no surface formats"@,
        },
{
    if is_srgb.len() == 0 {
        return Err("adapter offers no surface formats".to_owned());
    }
    let mut i: usize = 0;
    while i < is_srgb.len()
        invariant
            i <= is_srgb@.len(),
            forall|k: int| 0 <= k < i ==> is_srgb@[k] == false,
        decreases is_srgb@.len() - i,
    {
        if is_srgb[i] {
            return Ok(i);
        }
        i += 1;
    }
    Ok(0)
}

/// How frames are handed to the display.
#[derive(Debug, Clone, Copy, PartialEq, Eq, Structural)]
pub enum PresentMode {
    /// Uncapped without tearing.
    Mailbox,
    /// In step with the display. Always offered.
    Fifo,
    /// Anything else.
    Other,
}

/// Picks a present mode: mailbox where it is offered, for the lower latency, else fifo.
pub fn choose_present_mode(modes: &[PresentMode]) -> (mode: PresentMode)
    ensures
        mode == (if modes@.contains(PresentMode::Mailbox) {
            PresentMode::Mailbox
        } else {
            PresentMode::Fifo
        }),
{
    let mut i: usize = 0;
    while i < modes.len()
        invariant
            i <= modes@.len(),
            forall|k: int| 0 <= k < i ==> modes@[k] != PresentMode::Mailbox,
        decreases modes@.len() - i,
    {
        if modes[i] == PresentMode::Mailbox {
            return PresentMode::Mailbox;
        }
        i += 1;
    }
    PresentMode::Fifo
}

/// A length that is at least one: a surface and a texture cannot be empty.
pub open spec fn at_least_one(x: u32) -> u32 {
    if x < 1 {
        1
    } else {
        x
    }
}

fn nonzero(x: u32) -> (r: u32)
    ensures
        r == at_least_one(x),
{
    if x < 1 {
        1
    } else {
        x
    }
}

/// The size a swapchain is configured for.
#[derive(Debug, Clone, Copy, PartialEq, Eq, Structural)]
pub struct SurfaceSize {
    /// In pixels.
    pub width: u32,
    /// In pixels.
    pub height: u32,
}

impl SurfaceSize {
    /// Whether the size is one that a surface can have.
    pub open spec fn wf(self) -> bool {
        self.width > 0 && self.height > 0
    }

    /// The size of a new surface.
    pub fn new(width: u32, height: u32) -> (size: SurfaceSize)
        ensures
            size.wf(),
            size == (SurfaceSize { width: at_least_one(width), height: at_least_one(height) }),
    {
        SurfaceSize { width: nonzero(width), height: nonzero(height) }
    }

    /// Takes on a new size and says whether the surface has to be configured again. An empty size,
    /// which a minimised window reports, and the present size change nothing.
    pub fn resize(&mut self, width: u32, height: u32) -> (configure: bool)
        requires
            old(self).wf(),
        ensures
            final(self).wf(),
            configure == (width > 0 && height > 0 && *old(self) != (SurfaceSize { width, height })),
            *final(self) == (if configure {
                SurfaceSize { width, height }
            } else {
                *old(self)
            }),
    {
        if width == 0 || height == 0 {
            return false;
        }
        if self.width == width && self.height == height {
            return false;
        }
        self.width = width;
        self.height = height;
        true
    }
}

/// What the swapchain says when it is asked for the next image.
#[derive(Debug, Clone, Copy, PartialEq, Eq, Structural)]
pub enum SurfaceStatus {
    Success,
    Suboptimal,
    Outdated,
    Lost,
    Timeout,
    Occluded,
    Validation,
}

/// What to do about it.
#[derive(Debug, Clone, Copy, PartialEq, Eq, Structural)]
pub enum AcquireAction {
    /// Draw into the image.
    Draw,
    /// Skip the frame and resize the surface.
    Resize,
    /// Skip the frame.
    Skip,
}

/// Decides what to do with the swapchain's answer: draw into an image that is usable, resize a surface
/// that is out of date, and wait otherwise.
pub fn acquire(status: SurfaceStatus) -> (action: AcquireAction)
    ensures
        action == AcquireAction::Draw <==> status == SurfaceStatus::Success || status
            == SurfaceStatus::Suboptimal,
        action == AcquireAction::Resize <==> status == SurfaceStatus::Outdated || status
            == SurfaceStatus::Lost,
        action == AcquireAction::Skip <==> status == SurfaceStatus::Timeout || status
            == SurfaceStatus::Occluded || status == SurfaceStatus::Validation,
{
    match status {
        SurfaceStatus::Success | SurfaceStatus::Suboptimal => AcquireAction::Draw,
        SurfaceStatus::Outdated | SurfaceStatus::Lost => AcquireAction::Resize,
        SurfaceStatus::Timeout
        | SurfaceStatus::Occluded
        | SurfaceStatus::Validation => AcquireAction::Skip,
    }
}

/// The sizes of the frame targets.
#[derive(Debug, Clone, Copy, PartialEq, Eq)]
pub struct TargetSizes {
    /// The scene and depth targets.
    pub size: (u32, u32),
    /// The ocean target, at half the resolution.
    pub ocean_size: (u32, u32),
}

impl TargetSizes {
    /// The sizes for a window.
    pub open spec fn spec_new(width: u32, height: u32) -> TargetSizes {
        let (w, h) = (at_least_one(width), at_least_one(height));
        TargetSizes {
            size: (w, h),
            ocean_size: (((w + 1) / 2) as u32, ((h + 1) / 2) as u32),
        }
    }

    /// The sizes for a window. No target is empty.
    pub fn new(width: u32, height: u32) -> (sizes: TargetSizes)
        ensures
            sizes == TargetSizes::spec_new(width, height),
    {
        let w: u32 = nonzero(width);
        let h: u32 = nonzero(height);
        TargetSizes { size: (w, h), ocean_size: (w / 2 + w % 2, h / 2 + h % 2) }
    }

    /// Takes on the sizes for a window and says whether the targets have to be made again.
    pub fn resize(&mut self, width: u32, height: u32) -> (recreate: bool)
        ensures
            recreate == (old(self).size != (at_least_one(width), at_least_one(height))),
            *final(self) == (if recreate {
                TargetSizes::spec_new(width, height)
            } else {
                *old(self)
            }),
    {
        let w: u32 = nonzero(width);
        let h: u32 = nonzero(height);
        if self.size.0 == w && self.size.1 == h {
            return false;
        }
        *self = TargetSizes::new(w, h);
        true
    }
}

/// No target is empty, and the ocean target covers the scene: twice its size is the scene's, rounded up
/// to even.
pub proof fn law_the_ocean_covers_the_scene(width: u32, height: u32)
    ensures
        ({
            let t = TargetSizes::spec_new(width, height);
            &&& t.size.0 >= 1 && t.size.1 >= 1
            &&& t.ocean_size.0 >= 1 && t.ocean_size.1 >= 1
            &&& t.size.0 <= 2 * t.ocean_size.0 <= t.size.0 + 1
            &&& t.size.1 <= 2 * t.ocean_size.1 <= t.size.1 + 1
        }),
{
}

/// A side that is there is kept, and an empty one becomes one pixel, in every target.
pub proof fn law_targets_keep_the_window_size(width: u32, height: u32)
    ensures
        width >= 1 ==> at_least_one(width) == width,
        at_least_one(0) == 1,
        width >= 1 && height >= 1 ==> TargetSizes::spec_new(width, height).size == (width, height),
        TargetSizes::spec_new(0, 0).size == (1u32, 1u32),
{
}

/// A shader stage needs eight storage buffers.
pub proof fn law_a_stage_needs_eight_storage_buffers()
    ensures
        MIN_STORAGE_BUFFERS == 8,
{
}

} // verus!
