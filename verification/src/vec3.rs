//! Componentwise 3-D vectors over exact rational scalars.

use crate::rat::{q_add_c, q_div_c, q_mul_c, q_wf, q_zero, Q, Rat};
use vstd::prelude::*;

verus! {

/// A 3-D vector in specification space.
#[verifier::ext_equal]
pub ghost struct QV3 {
    pub x: Q,
    pub y: Q,
    pub z: Q,
}

pub open spec fn qv3_wf(v: QV3) -> bool {
    q_wf(v.x) && q_wf(v.y) && q_wf(v.z)
}

pub open spec fn qv3_zero() -> QV3 {
    QV3 { x: q_zero(), y: q_zero(), z: q_zero() }
}

/// Checked `acc + m * x` on one component.
pub open spec fn q_axpy_c(acc: Q, m: Q, x: Q) -> Option<Q> {
    match q_mul_c(m, x) {
        Some(p) => q_add_c(acc, p),
        None => None,
    }
}

/// Checked `acc + m * v`, componentwise.
pub open spec fn qv3_axpy_c(acc: QV3, m: Q, v: QV3) -> Option<QV3> {
    match (q_axpy_c(acc.x, m, v.x), q_axpy_c(acc.y, m, v.y), q_axpy_c(acc.z, m, v.z)) {
        (Some(x), Some(y), Some(z)) => Some(QV3 { x, y, z }),
        _ => None,
    }
}

/// Checked `v / t`, componentwise, with normalised (positive) denominators.
pub open spec fn qv3_div_c(v: QV3, t: Q) -> Option<QV3> {
    match (q_div_c(v.x, t), q_div_c(v.y, t), q_div_c(v.z, t)) {
        (Some(x), Some(y), Some(z)) => Some(QV3 { x, y, z }),
        _ => None,
    }
}

/// An executable 3-D vector of exact rational components.
#[derive(Clone, Copy, Debug)]
pub struct Vec3 {
    pub x: Rat,
    pub y: Rat,
    pub z: Rat,
}

impl View for Vec3 {
    type V = QV3;

    open spec fn view(&self) -> QV3 {
        QV3 { x: self.x@, y: self.y@, z: self.z@ }
    }
}

impl Vec3 {
    pub open spec fn wf(self) -> bool {
        qv3_wf(self@)
    }

    pub fn new(x: Rat, y: Rat, z: Rat) -> (r: Vec3)
        ensures
            r@ == (QV3 { x: x@, y: y@, z: z@ }),
    {
        Vec3 { x, y, z }
    }

    pub fn zero() -> (r: Vec3)
        ensures
            r.wf(),
            r@ == qv3_zero(),
    {
        Vec3 { x: Rat::zero(), y: Rat::zero(), z: Rat::zero() }
    }

    /// `self + m * v`, componentwise and checked.
    pub fn checked_axpy(self, m: Rat, v: Vec3) -> (r: Option<Vec3>)
        requires
            self.wf(),
            m.wf(),
            v.wf(),
        ensures
            match r {
                Some(c) => c.wf() && qv3_axpy_c(self@, m@, v@) == Some(c@),
                None => qv3_axpy_c(self@, m@, v@) is None,
            },
    {
        let px = match m.checked_mul(v.x) {
            Some(p) => p,
            None => {
                return None;
            },
        };
        let py = match m.checked_mul(v.y) {
            Some(p) => p,
            None => {
                return None;
            },
        };
        let pz = match m.checked_mul(v.z) {
            Some(p) => p,
            None => {
                return None;
            },
        };
        let x = match self.x.checked_add(px) {
            Some(c) => c,
            None => {
                return None;
            },
        };
        let y = match self.y.checked_add(py) {
            Some(c) => c,
            None => {
                return None;
            },
        };
        let z = match self.z.checked_add(pz) {
            Some(c) => c,
            None => {
                return None;
            },
        };
        Some(Vec3 { x, y, z })
    }

    /// `self / t`, componentwise and checked.
    pub fn checked_div(self, t: Rat) -> (r: Option<Vec3>)
        requires
            self.wf(),
            t.wf(),
            t@.n != 0,
        ensures
            match r {
                Some(c) => c.wf() && qv3_div_c(self@, t@) == Some(c@),
                None => qv3_div_c(self@, t@) is None,
            },
    {
        let x = match self.x.checked_div(t) {
            Some(c) => c,
            None => {
                return None;
            },
        };
        let y = match self.y.checked_div(t) {
            Some(c) => c,
            None => {
                return None;
            },
        };
        let z = match self.z.checked_div(t) {
            Some(c) => c,
            None => {
                return None;
            },
        };
        Some(Vec3 { x, y, z })
    }
}

} // verus!
