use vstd::prelude::*;

verus! {

/// Kind of ellipsoidal coordinates used when converting to and from
/// body-fixed Cartesian coordinates.
#[derive(Debug, Clone, Copy, PartialEq, Eq, Structural)]
pub enum EllipsoidalConversionType {
    Geocentric,
    Geodetic,
}

} // verus!
