//! Reading a texture back: the row pitch, and stripping the padding that the pitch brings.
//!
//! A copy from a texture to a buffer needs a row pitch that is a multiple of 256 bytes, so the rows of
//! a target arrive with padding that the caller never asked for. Reading them with the wrong pitch
//! produces a sheared image.

use crate::bytes::append;
use vstd::prelude::*;

verus! {

/// The multiple that a row pitch has to be of, in bytes.
pub const PITCH: u32 = 256;

/// How a texture is copied into a buffer.
#[derive(Debug, Clone, Copy, PartialEq, Eq, Structural)]
pub struct ReadbackPlan {
    /// Bytes of texels in a row.
    pub row_bytes: u32,
    /// Bytes from the start of a row to the start of the next.
    pub padded_row: u32,
    /// Number of rows.
    pub height: u32,
    /// Bytes in the buffer.
    pub size: u64,
}

impl ReadbackPlan {
    /// Whether the plan holds together: the pitch is the row rounded up, the size that of all rows.
    pub open spec fn wf(self) -> bool {
        &&& self.padded_row == crate::layout::round_up(self.row_bytes as nat, PITCH as nat)
        &&& self.size == self.padded_row * self.height
    }

    /// Plans the copy of a texture of `width` by `height` texels.
    pub fn new(width: u32, height: u32, bytes_per_texel: u32) -> (plan: ReadbackPlan)
        requires
            width * bytes_per_texel + PITCH - 1 <= u32::MAX,
        ensures
            plan.wf(),
            plan.row_bytes == width * bytes_per_texel,
            plan.height == height,
            plan.padded_row % 256 == 0,
            plan.row_bytes <= plan.padded_row < plan.row_bytes + 256,
            plan.size == plan.padded_row * plan.height,
    {
        let row_bytes: u32 = width * bytes_per_texel;
        let padded_row: u32 = (row_bytes + (PITCH - 1)) / PITCH * PITCH;
        assert(padded_row as u64 * height as u64 <= u64::MAX) by (nonlinear_arith);
        let size: u64 = padded_row as u64 * height as u64;
        ReadbackPlan { row_bytes, padded_row, height, size }
    }

    /// The texels of a copied texture, tightly packed.
    pub fn strip(&self, view: &[u8]) -> (out: Vec<u8>)
        requires
            self.wf(),
            view@.len() == self.size,
        ensures
            out@ == unpadded(
                self.row_bytes as int,
                self.padded_row as int,
                self.height as int,
                view@,
            ),
    {
        let mut out: Vec<u8> = Vec::new();
        let mut row: u32 = 0;
        let mut start: usize = 0;
        while row < self.height
            invariant
                row <= self.height,
                self.wf(),
                view@.len() == self.size,
                start == row * self.padded_row,
                out@ == unpadded(
                    self.row_bytes as int,
                    self.padded_row as int,
                    row as int,
                    view@,
                ),
            decreases self.height - row,
        {
            let ghost pitch: int = self.padded_row as int;
            assert(pitch * (row + 1) <= pitch * self.height) by (nonlinear_arith)
                requires
                    row < self.height,
                    pitch >= 0,
            ;
            assert((row + 1) * pitch == row * pitch + pitch) by (nonlinear_arith);
            assert(pitch * (row + 1) == (row + 1) * pitch) by (nonlinear_arith);
            assert(self.row_bytes <= pitch);
            assert(start + pitch <= view.len());
            append(
                &mut out,
                vstd::slice::slice_subrange(view, start, start + self.row_bytes as usize),
            );
            start = start + self.padded_row as usize;
            row += 1;
        }
        out
    }
}

/// The first `row` bytes of each of the first `rows` stretches of `pitch` bytes.
pub open spec fn unpadded(row: int, pitch: int, rows: int, view: Seq<u8>) -> Seq<u8>
    decreases rows,
{
    if rows <= 0 {
        Seq::empty()
    } else {
        unpadded(row, pitch, rows - 1, view) + view.subrange(
            (rows - 1) * pitch,
            (rows - 1) * pitch + row,
        )
    }
}

/// Whether `view` holds the rows of `texels`, one per `pitch` bytes, with anything in between.
pub open spec fn holds_rows(
    row: int,
    pitch: int,
    rows: int,
    view: Seq<u8>,
    texels: Seq<u8>,
) -> bool {
    forall|r: int|
        0 <= r < rows ==> #[trigger] view.subrange(r * pitch, r * pitch + row) == texels.subrange(
            r * row,
            (r + 1) * row,
        )
}

/// Stripping gives back the texels that were copied, whatever the padding holds.
pub proof fn law_stripping_gives_the_texels_back(
    row: int,
    pitch: int,
    rows: int,
    view: Seq<u8>,
    texels: Seq<u8>,
)
    requires
        0 <= row <= pitch,
        0 <= rows,
        row * rows <= texels.len(),
        holds_rows(row, pitch, rows, view, texels),
    ensures
        unpadded(row, pitch, rows, view) == texels.take(row * rows),
    decreases rows,
{
    if rows > 0 {
        assert(row * (rows - 1) == row * rows - row) by (nonlinear_arith);
        assert((rows - 1) * row == row * rows - row) by (nonlinear_arith);
        assert((rows - 1 + 1) * row == row * rows) by (nonlinear_arith);
        assert(0 <= row * (rows - 1)) by (nonlinear_arith)
            requires
                0 <= row,
                0 < rows,
        ;
        law_stripping_gives_the_texels_back(row, pitch, rows - 1, view, texels);
        let r = rows - 1;
        assert(view.subrange(r * pitch, r * pitch + row) == texels.subrange(r * row, (r + 1) * row));
        assert(texels.take(row * (rows - 1)) + texels.subrange(r * row, (r + 1) * row)
            =~= texels.take(row * rows));
    } else {
        assert(row * rows == 0) by (nonlinear_arith)
            requires
                rows == 0,
        ;
        assert(texels.take(0) =~= Seq::<u8>::empty());
    }
}

/// Rows are 256 bytes apart, or a multiple of that, and no further than a row needs.
pub proof fn law_rows_are_padded_to_the_pitch(plan: ReadbackPlan)
    requires
        plan.wf(),
    ensures
        plan.padded_row % 256 == 0,
        plan.row_bytes <= plan.padded_row < plan.row_bytes + 256,
        plan.size == plan.padded_row * plan.height,
{
}

} // verus!
