//! The camera: where it stands, the viewport it looks through, and the
//! transform from pixel indices to points on the image plane.

use vstd::prelude::*;
use crate::algebra::{Matrix, Vector};

verus! {

/// The lower-left corner of the viewport on the image plane.
pub open spec fn lower_left() -> Vector {
    Vector { x: -2real, y: -1real, z: -1real, w: 1real }
}

/// The upper-right corner of the viewport on the image plane.
pub open spec fn upper_right() -> Vector {
    Vector { x: 2real, y: 1real, z: -1real, w: 1real }
}

/// The number of steps into which the depth range of the viewport is divided.
pub open spec fn depth_steps() -> real {
    100real
}

/// The scale-and-translate matrix that carries pixel `(0, 0)` to the
/// lower-left corner of the viewport and pixel `(width, height)` to its
/// upper-right corner.
pub open spec fn viewport_matrix(width: int, height: int) -> Matrix {
    let range = upper_right().minus(lower_left());
    let low = lower_left();
    Matrix {
        r0: Vector { x: range.x / width as real, y: 0real, z: 0real, w: low.x },
        r1: Vector { x: 0real, y: range.y / height as real, z: 0real, w: low.y },
        r2: Vector { x: 0real, y: 0real, z: range.z / depth_steps(), w: low.z },
        r3: Vector { x: 0real, y: 0real, z: 0real, w: 1real },
    }
}

/// The matrix that mirrors the y axis, so that rows counted downwards in the
/// image run upwards in camera space.
pub open spec fn flip_y() -> Matrix {
    Matrix {
        r0: Vector { x: 1real, y: 0real, z: 0real, w: 0real },
        r1: Vector { x: 0real, y: -1real, z: 0real, w: 0real },
        r2: Vector { x: 0real, y: 0real, z: 1real, w: 0real },
        r3: Vector { x: 0real, y: 0real, z: 0real, w: 1real },
    }
}

/// The transform from homogeneous pixel coordinates to the image plane:
/// the viewport matrix followed by the mirror.
pub open spec fn projection(width: int, height: int) -> Matrix {
    flip_y().times(viewport_matrix(width, height))
}

/// The camera: the point from which every ray leaves.
pub open spec fn camera() -> Vector {
    Vector { x: 0real, y: 0real, z: 0real, w: 1real }
}

/// The pixel in column `x` of row `y` as a homogeneous point.
pub open spec fn pixel_point(x: int, y: int) -> Vector {
    Vector { x: x as real, y: y as real, z: 0real, w: 1real }
}

/// The direction of the ray through the pixel in column `x` of row `y`: from
/// the camera to the pixel's point on the image plane.
pub open spec fn pixel_direction(width: int, height: int, x: int, y: int) -> Vector {
    projection(width, height).apply(pixel_point(x, y)).minus(camera())
}

} // verus!
