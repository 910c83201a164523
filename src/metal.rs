use vstd::prelude::*;

verus! {

/// One GPU buffer of a rotation: its handle, once allocated, the number of
/// elements it was allocated for and the number in use.
#[derive(Clone, Copy, Debug, Default, PartialEq, Eq, Structural)]
pub struct MultiMetalBuffer {
    pub buffer: Option<u64>,
    pub size: usize,
    pub used: usize,
}

/// Five buffers used in turn, so that the one being written is never one
/// the GPU may still read.
#[derive(Clone, Copy, Debug, Default, PartialEq, Eq, Structural)]
pub struct MetalBuffer {
    pub last_written: usize,
    pub multi1: MultiMetalBuffer,
    pub multi2: MultiMetalBuffer,
    pub multi3: MultiMetalBuffer,
    pub multi4: MultiMetalBuffer,
    pub multi5: MultiMetalBuffer,
}

/// A draw call's instance buffer.
#[derive(Clone, Copy, Debug, Default)]
pub struct CxPlatformDrawCall {
    pub inst_vbuf: MetalBuffer,
}

/// A geometry's vertex and index buffers.
#[derive(Clone, Copy, Debug, Default)]
pub struct CxPlatformGeometry {
    pub geom_vbuf: MetalBuffer,
    pub geom_ibuf: MetalBuffer,
}

impl MetalBuffer {
    /// The buffer at rotation position `i`; positions past the fourth all
    /// name the fifth buffer.
    pub open spec fn slot(&self, i: usize) -> MultiMetalBuffer {
        if i == 0 {
            self.multi1
        } else if i == 1 {
            self.multi2
        } else if i == 2 {
            self.multi3
        } else if i == 3 {
            self.multi4
        } else {
            self.multi5
        }
    }

    /// This rotation with the buffer at position `i` replaced by `m`.
    pub open spec fn with_slot(&self, i: usize, m: MultiMetalBuffer) -> MetalBuffer {
        if i == 0 {
            MetalBuffer { multi1: m, ..*self }
        } else if i == 1 {
            MetalBuffer { multi2: m, ..*self }
        } else if i == 2 {
            MetalBuffer { multi3: m, ..*self }
        } else if i == 3 {
            MetalBuffer { multi4: m, ..*self }
        } else {
            MetalBuffer { multi5: m, ..*self }
        }
    }

    /// The buffer written last, which is the one to read.
    pub fn multi_buffer_read(&self) -> (r: &MultiMetalBuffer)
        ensures
            *r == self.slot(self.last_written),
    {
        match self.last_written {
            0 => &self.multi1,
            1 => &self.multi2,
            2 => &self.multi3,
            3 => &self.multi4,
            _ => &self.multi5,
        }
    }

    /// Moves on to the next buffer of the rotation and hands it out for
    /// writing.
    pub fn multi_buffer_write(&mut self) -> (r: &mut MultiMetalBuffer)
        ensures
            final(self).last_written == (old(self).last_written + 1) % 5,
            *r == old(self).slot(final(self).last_written),
            *final(self) == (MetalBuffer { last_written: final(self).last_written, ..*old(self) }).with_slot(
                final(self).last_written,
                *final(r),
            ),
    {
        self.last_written = (self.last_written % 5 + 1) % 5;
        match self.last_written {
            0 => &mut self.multi1,
            1 => &mut self.multi2,
            2 => &mut self.multi3,
            3 => &mut self.multi4,
            _ => &mut self.multi5,
        }
    }
}

} // verus!
