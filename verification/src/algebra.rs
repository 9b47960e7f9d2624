//! Homogeneous vectors and 4x4 matrices over the real numbers: the
//! mathematical model in which the contracts of this crate are stated.

use vstd::prelude::*;

verus! {

/// A homogeneous 4-vector: a point when `w` is one, a direction when `w` is zero.
pub struct Vector {
    pub x: real,
    pub y: real,
    pub z: real,
    pub w: real,
}

impl Vector {
    /// The component-wise sum.
    pub open spec fn plus(self, other: Vector) -> Vector {
        Vector {
            x: self.x + other.x,
            y: self.y + other.y,
            z: self.z + other.z,
            w: self.w + other.w,
        }
    }

    /// The component-wise difference.
    pub open spec fn minus(self, other: Vector) -> Vector {
        Vector {
            x: self.x - other.x,
            y: self.y - other.y,
            z: self.z - other.z,
            w: self.w - other.w,
        }
    }

    /// Every component multiplied by `t`.
    pub open spec fn scaled(self, t: real) -> Vector {
        Vector { x: t * self.x, y: t * self.y, z: t * self.z, w: t * self.w }
    }

    /// The dot product over all four components.
    pub open spec fn dot(self, other: Vector) -> real {
        self.x * other.x + self.y * other.y + self.z * other.z + self.w * other.w
    }

    /// The dot product over the spatial components `x`, `y`, `z`.
    pub open spec fn dot3(self, other: Vector) -> real {
        self.x * other.x + self.y * other.y + self.z * other.z
    }
}

/// A 4x4 matrix, held by rows.
pub struct Matrix {
    pub r0: Vector,
    pub r1: Vector,
    pub r2: Vector,
    pub r3: Vector,
}

impl Matrix {
    /// The first column.
    pub open spec fn c0(self) -> Vector {
        Vector { x: self.r0.x, y: self.r1.x, z: self.r2.x, w: self.r3.x }
    }

    /// The second column.
    pub open spec fn c1(self) -> Vector {
        Vector { x: self.r0.y, y: self.r1.y, z: self.r2.y, w: self.r3.y }
    }

    /// The third column.
    pub open spec fn c2(self) -> Vector {
        Vector { x: self.r0.z, y: self.r1.z, z: self.r2.z, w: self.r3.z }
    }

    /// The fourth column.
    pub open spec fn c3(self) -> Vector {
        Vector { x: self.r0.w, y: self.r1.w, z: self.r2.w, w: self.r3.w }
    }

    /// The matrix-vector product `self * v`.
    pub open spec fn apply(self, v: Vector) -> Vector {
        Vector { x: self.r0.dot(v), y: self.r1.dot(v), z: self.r2.dot(v), w: self.r3.dot(v) }
    }

    /// The row `r` of `self` multiplied into the columns of `other`.
    pub open spec fn row_times(r: Vector, other: Matrix) -> Vector {
        Vector {
            x: r.dot(other.c0()),
            y: r.dot(other.c1()),
            z: r.dot(other.c2()),
            w: r.dot(other.c3()),
        }
    }

    /// The matrix product `self * other`.
    pub open spec fn times(self, other: Matrix) -> Matrix {
        Matrix {
            r0: Self::row_times(self.r0, other),
            r1: Self::row_times(self.r1, other),
            r2: Self::row_times(self.r2, other),
            r3: Self::row_times(self.r3, other),
        }
    }
}

} // verus!
