use vstd::prelude::*;

verus! {

/// A co-ordinate axis.
#[derive(PartialEq, Eq, Clone, Copy, Debug)]
pub enum Axis {
    X,
    Y,
    Z,
}

/// How a bounding volume hierarchy chooses where to split.
#[derive(PartialEq, Eq, Clone, Copy, Debug)]
pub enum SplitMethod {
    Median,
    SAH,
}

/// The projection a camera uses.
#[derive(PartialEq, Eq, Clone, Copy, Debug)]
pub enum CameraType {
    Perspective,
    Orthographic,
}

/// Something that a transformation can be applied to.
pub trait Transformable<T> {
    fn transform(&self, t: &T) -> T;
}

/// Film dimensions in pixels.
#[derive(PartialEq, Eq, Clone, Copy, Debug)]
pub struct Film {
    pub width: usize,
    pub height: usize,
}

} // verus!
