//! Layout data of markers: the colour tile lying on a track.
use vstd::prelude::*;
use crate::common::layout_primitives::MarkerColor;

verus! {

/// Marker type for the marker element kind.
#[derive(Clone, Copy, Debug)]
pub struct Marker;

/// Layout data for a marker.
#[derive(Clone, Copy, Debug, PartialEq, Eq, Structural)]
pub struct MarkerData {
    pub color: MarkerColor,
}

impl Default for MarkerData {
    fn default() -> (r: Self)
        ensures
            r.color == MarkerColor::Any,
    {
        MarkerData { color: MarkerColor::Any }
    }
}

} // verus!
