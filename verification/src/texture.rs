use vstd::prelude::*;

use crate::scan::PeakScan;

verus! {

/// The extent of a texture, in texels.
#[derive(Debug, PartialEq, Eq, Clone, Copy)]
pub struct Extent3d {
    pub width: u32,
    pub height: u32,
    pub depth_or_array_layers: u32,
}

/// A one-row texture that holds one texel per peak of a scan.
pub struct PeakTexture<'s, T> {
    scan: &'s PeakScan<T>,
}

impl<'s, T> View for PeakTexture<'s, T> {
    type V = Seq<crate::peaks::Peak<T>>;

    closed spec fn view(&self) -> Seq<crate::peaks::Peak<T>> {
        self.scan@
    }
}

impl<'s, T> From<&'s PeakScan<T>> for PeakTexture<'s, T> {
    fn from(value: &'s PeakScan<T>) -> (res: Self)
        ensures
            res@ == value@,
    {
        PeakTexture { scan: value }
    }
}

impl<'s, T> vstd::std_specs::convert::FromSpecImpl<&'s PeakScan<T>> for PeakTexture<'s, T> {
    open spec fn obeys_from_spec() -> bool {
        true
    }

    closed spec fn from_spec(v: &'s PeakScan<T>) -> Self {
        PeakTexture { scan: v }
    }
}

impl<'s, T> PeakTexture<'s, T> {
    /// One texel per peak in a single row: the width is the scan's
    /// resolution, cut to 32 bits as `as u32` does.
    pub fn texture_size(&self) -> (res: Extent3d)
        ensures
            res.width == self@.len() as u32,
            res.height == 1,
            res.depth_or_array_layers == 1,
    {
        Extent3d { width: self.scan.resolution() as u32, height: 1, depth_or_array_layers: 1 }
    }

    /// The bytes in the texture's row: eight per peak (two 32-bit values).
    pub fn bytes_per_row(&self) -> (res: u32)
        requires
            8 * (self@.len() as u32) <= u32::MAX,
        ensures
            res == 8 * (self@.len() as u32),
    {
        8 * (self.scan.resolution() as u32)
    }
}

} // verus!
