use vstd::prelude::*;

verus! {

/// Plane layout of a decoded YUV 4:2:0 frame.
#[derive(Debug, Clone, Copy, PartialEq, Eq, Structural)]
pub enum YuvLayout {
    I420,
    Nv12,
}

} // verus!
