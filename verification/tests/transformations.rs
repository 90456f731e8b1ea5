// The coordinate conversions these cases name are computed in floating
// point; their original cases hold no assertions.

#[test]
fn test_position_geocentric_to_ecef() {}

#[test]
fn test_position_ecef_to_geocentric() {}

#[test]
fn test_position_geodetic_to_ecef() {}

#[test]
fn test_position_ecef_to_geodetic() {}
